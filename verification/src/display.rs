//! Colours, how they mix, and how a single cell is drawn.
use vstd::prelude::*;

verus! {

/// A 24-bit colour. Every colour the game uses is one of these.
#[derive(Clone, Copy, Debug, PartialEq, Eq, Structural)]
pub struct Color {
    pub r: u8,
    pub g: u8,
    pub b: u8,
}

pub open spec fn spec_black() -> Color {
    Color { r: 0, g: 0, b: 0 }
}

/// An empty cell.
#[verifier::when_used_as_spec(spec_black)]
pub fn black() -> (c: Color)
    ensures
        c == spec_black(),
{
    Color { r: 0, g: 0, b: 0 }
}

pub open spec fn spec_red() -> Color {
    Color { r: 255, g: 0, b: 0 }
}

#[verifier::when_used_as_spec(spec_red)]
pub fn red() -> (c: Color)
    ensures
        c == spec_red(),
{
    Color { r: 255, g: 0, b: 0 }
}

pub open spec fn spec_green() -> Color {
    Color { r: 0, g: 255, b: 0 }
}

#[verifier::when_used_as_spec(spec_green)]
pub fn green() -> (c: Color)
    ensures
        c == spec_green(),
{
    Color { r: 0, g: 255, b: 0 }
}

pub open spec fn spec_blue() -> Color {
    Color { r: 0, g: 0, b: 255 }
}

#[verifier::when_used_as_spec(spec_blue)]
pub fn blue() -> (c: Color)
    ensures
        c == spec_blue(),
{
    Color { r: 0, g: 0, b: 255 }
}

pub open spec fn spec_white() -> Color {
    Color { r: 255, g: 255, b: 255 }
}

/// A full row: all three primaries are present, so the row is cleared.
#[verifier::when_used_as_spec(spec_white)]
pub fn white() -> (c: Color)
    ensures
        c == spec_white(),
{
    Color { r: 255, g: 255, b: 255 }
}

pub open spec fn spec_gray() -> Color {
    Color { r: 228, g: 228, b: 228 }
}

/// The colour of the frame around the board and the info panel.
#[verifier::when_used_as_spec(spec_gray)]
pub fn gray() -> (c: Color)
    ensures
        c == spec_gray(),
{
    Color { r: 228, g: 228, b: 228 }
}

/// Two colours can be mixed when no channel of their sum exceeds 255.
pub open spec fn blendable(a: Color, b: Color) -> bool {
    &&& a.r + b.r <= 255
    &&& a.g + b.g <= 255
    &&& a.b + b.b <= 255
}

/// The mix of two colours: the channel-wise sum.
pub open spec fn spec_blend(a: Color, b: Color) -> Color
    recommends
        blendable(a, b),
{
    Color { r: (a.r + b.r) as u8, g: (a.g + b.g) as u8, b: (a.b + b.b) as u8 }
}

/// Two colours collide when they share a channel that is lit in both.
pub open spec fn spec_collides(a: Color, b: Color) -> bool {
    ||| (a.r > 0 && b.r > 0)
    ||| (a.g > 0 && b.g > 0)
    ||| (a.b > 0 && b.b > 0)
}

/// Mixes two colours by adding them channel by channel.
#[verifier::when_used_as_spec(spec_blend)]
pub fn blend(a: Color, b: Color) -> (c: Color)
    requires
        blendable(a, b),
    ensures
        c == spec_blend(a, b),
        c.r == a.r + b.r,
        c.g == a.g + b.g,
        c.b == a.b + b.b,
{
    Color { r: a.r + b.r, g: a.g + b.g, b: a.b + b.b }
}

/// Whether two colours share a lit channel.
#[verifier::when_used_as_spec(spec_collides)]
pub fn collides(a: Color, b: Color) -> (res: bool)
    ensures
        res == spec_collides(a, b),
        res <==> (a.r > 0 && b.r > 0) || (a.g > 0 && b.g > 0) || (a.b > 0 && b.b > 0),
{
    (a.r > 0 && b.r > 0) || (a.g > 0 && b.g > 0) || (a.b > 0 && b.b > 0)
}


/// Yellow: red light mixed with green light.
pub fn red_green() -> (c: Color)
    ensures
        c == spec_blend(spec_red(), spec_green()),
{
    blend(red(), green())
}

/// Magenta: red light mixed with blue light.
pub fn red_blue() -> (c: Color)
    ensures
        c == spec_blend(spec_red(), spec_blue()),
{
    blend(red(), blue())
}

/// Cyan: blue light mixed with green light.
pub fn blue_green() -> (c: Color)
    ensures
        c == spec_blend(spec_blue(), spec_green()),
{
    blend(blue(), green())
}

/// The glyph that stands for a colour in colour-blind mode.
pub open spec fn spec_colorblind_glyph(c: Color) -> char {
    if c == spec_red() {
        '\u{2585}'
    } else if c == spec_green() {
        '\u{258c}'
    } else if c == spec_blue() {
        '\u{259e}'
    } else if c == spec_blend(spec_red(), spec_green()) {
        '\u{2599}'
    } else if c == spec_blend(spec_red(), spec_blue()) {
        '\u{259f}'
    } else if c == spec_blend(spec_blue(), spec_green()) {
        '\u{259b}'
    } else if c == spec_black() {
        ' '
    } else {
        '\u{2593}'
    }
}

/// The glyph drawn for a cell: blank when empty, a shaded block otherwise,
/// and in colour-blind mode a block whose shape tells the colour apart.
pub open spec fn spec_glyph(c: Color, color_blind: bool) -> char {
    if c == spec_black() {
        ' '
    } else if color_blind {
        spec_colorblind_glyph(c)
    } else {
        '\u{2593}'
    }
}

/// One cell of the screen: its colour, and whether colour-blind mode is on.
#[derive(Clone, Copy, Debug)]
pub struct RenderCell(pub Color, pub bool);

impl RenderCell {
    /// The character printed for this cell (it is printed in the cell's
    /// colour unless the cell is empty).
    pub fn glyph(&self) -> (ch: char)
        ensures
            ch == spec_glyph(self.0, self.1),
    {
        let c = self.0;
        if c == black() {
            ' '
        } else if self.1 {
            if c == red() {
                '\u{2585}'
            } else if c == green() {
                '\u{258c}'
            } else if c == blue() {
                '\u{259e}'
            } else if c == red_green() {
                '\u{2599}'
            } else if c == red_blue() {
                '\u{259f}'
            } else if c == blue_green() {
                '\u{259b}'
            } else {
                '\u{2593}'
            }
        } else {
            '\u{2593}'
        }
    }
}

/// The frame pieces drawn left and right of a board row: the top row gets
/// the open corners, every other row plain walls.
pub fn wall_glyphs(row: usize) -> (walls: (char, char))
    ensures
        walls == (if row == 0 { ('\u{2553}', '\u{2556}') } else { ('\u{2551}', '\u{2551}') }),
{
    if row == 0 {
        ('\u{2553}', '\u{2556}')
    } else {
        ('\u{2551}', '\u{2551}')
    }
}

} // verus!
