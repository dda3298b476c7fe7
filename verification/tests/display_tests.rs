use blendtris::display::{
    black, blend, blue, blue_green, collides, gray, green, red, red_blue, red_green, wall_glyphs,
    white, Color, RenderCell,
};

#[test]
fn blend_adds_channels() {
    assert_eq!(blend(red(), green()), Color { r: 255, g: 255, b: 0 });
    assert_eq!(blend(red(), blue()), Color { r: 255, g: 0, b: 255 });
    assert_eq!(blend(Color { r: 10, g: 20, b: 30 }, Color { r: 1, g: 2, b: 3 }), Color { r: 11, g: 22, b: 33 });
}

#[test]
fn mixed_colors_are_blends_of_primaries() {
    assert_eq!(red_green(), Color { r: 255, g: 255, b: 0 });
    assert_eq!(red_blue(), Color { r: 255, g: 0, b: 255 });
    assert_eq!(blue_green(), Color { r: 0, g: 255, b: 255 });
    assert_eq!(blend(red_green(), blue()), white());
}

#[test]
fn blend_is_commutative() {
    let a = Color { r: 100, g: 0, b: 7 };
    let b = Color { r: 5, g: 255, b: 9 };
    assert_eq!(blend(a, b), blend(b, a));
}

#[test]
fn black_is_neutral() {
    assert_eq!(blend(blue_green(), black()), blue_green());
    assert!(!collides(white(), black()));
}

#[test]
fn collides_on_shared_channel() {
    assert!(collides(red(), red_green()));
    assert!(collides(blue(), white()));
    assert!(!collides(red(), green()));
    assert!(!collides(red_green(), blue()));
    assert_eq!(collides(red(), red_blue()), collides(red_blue(), red()));
}

#[test]
fn palette_values() {
    assert_eq!(black(), Color { r: 0, g: 0, b: 0 });
    assert_eq!(white(), Color { r: 255, g: 255, b: 255 });
    assert_eq!(gray(), Color { r: 228, g: 228, b: 228 });
}

#[test]
fn glyphs_in_color_blind_mode() {
    assert_eq!(RenderCell(red(), true).glyph(), '▅');
    assert_eq!(RenderCell(green(), true).glyph(), '▌');
    assert_eq!(RenderCell(blue(), true).glyph(), '▞');
    assert_eq!(RenderCell(red_green(), true).glyph(), '▙');
    assert_eq!(RenderCell(red_blue(), true).glyph(), '▟');
    assert_eq!(RenderCell(blue_green(), true).glyph(), '▛');
    assert_eq!(RenderCell(white(), true).glyph(), '▓');
    assert_eq!(RenderCell(black(), true).glyph(), ' ');
}

#[test]
fn glyphs_in_normal_mode() {
    assert_eq!(RenderCell(red(), false).glyph(), '▓');
    assert_eq!(RenderCell(blue_green(), false).glyph(), '▓');
    assert_eq!(RenderCell(black(), false).glyph(), ' ');
}

#[test]
fn walls_of_rows() {
    assert_eq!(wall_glyphs(0), ('╓', '╖'));
    assert_eq!(wall_glyphs(1), ('║', '║'));
    assert_eq!(wall_glyphs(31), ('║', '║'));
}
