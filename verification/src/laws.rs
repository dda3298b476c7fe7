//! Properties that hold across the game's operations.
use vstd::prelude::*;
use crate::display::{
    blendable, spec_black, spec_blend, spec_blue, spec_collides, spec_green, spec_red, spec_white,
    Color,
};
use crate::board::{
    blank_rows, can_descend, can_merge, cleared, count_white, drop_distance, is_kept, kept,
    lemma_cleared_push, lemma_kept_push, merged, no_white, rests_at, rotated, stacked, ticks,
};
use crate::board::{Board, Piece};
use crate::game::Draw;
use crate::game::{
    dealt_from, is_fresh_piece, spec_piece_color, delay_ms, accepts, cleared_scored, clearable, frames_per_row, is_piece_color,
    is_piece_shape, level_of, line_points, played, rotation_rests, spawn_result, ticked, Game,
    Input, BOARD_HEIGHT, MAX_PIECE_SIZE,
};

verus! {

/// Two colours that share no lit channel can always be mixed.
pub proof fn lemma_disjoint_colors_blend(a: Color, b: Color)
    requires
        !spec_collides(a, b),
    ensures
        blendable(a, b),
{
}

/// Mixing does not depend on the order of the colours, and neither does
/// colliding.
pub proof fn lemma_blend_commutes(a: Color, b: Color)
    ensures
        blendable(a, b) == blendable(b, a),
        blendable(a, b) ==> spec_blend(a, b) == spec_blend(b, a),
        spec_collides(a, b) == spec_collides(b, a),
{
}

/// An empty cell collides with nothing, and mixing it in changes nothing.
pub proof fn lemma_black_is_neutral(c: Color)
    ensures
        !spec_collides(c, spec_black()),
        blendable(c, spec_black()),
        spec_blend(c, spec_black()) == c,
{
}

/// A piece that can move one row down can land on that row: moving down
/// never puts the piece where its colours would overflow.
pub proof fn lemma_descend_then_merge(cells: Seq<Color>, piece: Seq<Color>, pos: int)
    requires
        0 <= pos,
        can_descend(cells, piece, pos),
    ensures
        can_merge(cells, piece, pos + 1),
{
    assert forall|i: int| 0 <= i < piece.len() implies blendable(
        cells[pos + 1 + i],
        #[trigger] piece[i],
    ) by {
        assert(!spec_collides(cells[pos + i + 1], piece[i]));
    }
}

/// Where a piece comes to rest it can fall no further.
pub proof fn lemma_landing_is_final(cells: Seq<Color>, piece: Seq<Color>, pos: int)
    ensures
        !can_descend(cells, piece, pos + drop_distance(cells, piece, pos)),
    decreases cells.len() - pos,
{
    if can_descend(cells, piece, pos) {
        lemma_landing_is_final(cells, piece, pos + 1);
    }
}

/// A piece never falls past the bottom of the column.
pub proof fn lemma_landing_inside(cells: Seq<Color>, piece: Seq<Color>, pos: int)
    requires
        0 <= pos,
        pos + piece.len() <= cells.len(),
    ensures
        pos + drop_distance(cells, piece, pos) + piece.len() <= cells.len(),
    decreases cells.len() - pos,
{
    if can_descend(cells, piece, pos) {
        lemma_landing_inside(cells, piece, pos + 1);
    }
}

/// A stack of colours turned `n` times.
pub open spec fn rotated_times(s: Seq<Color>, n: nat) -> Seq<Color>
    decreases n,
{
    if n == 0 {
        s
    } else {
        rotated(rotated_times(s, (n - 1) as nat))
    }
}

/// Turning `k` times moves the top `k` colours to the bottom, in order.
pub proof fn lemma_rotated_times(s: Seq<Color>, k: nat)
    requires
        0 < s.len(),
        k <= s.len(),
    ensures
        rotated_times(s, k) == s.subrange(k as int, s.len() as int) + s.subrange(0, k as int),
    decreases k,
{
    if k == 0 {
        assert(s.subrange(0, s.len() as int) + s.subrange(0, 0) =~= s);
    } else {
        lemma_rotated_times(s, (k - 1) as nat);
        let prev = s.subrange(k - 1, s.len() as int) + s.subrange(0, k - 1);
        assert(rotated(prev) =~= s.subrange(k as int, s.len() as int) + s.subrange(0, k as int));
    }
}

/// Turning a piece once per cell brings it back to where it started, and
/// turning never changes its height.
pub proof fn lemma_full_turn(s: Seq<Color>)
    requires
        0 < s.len(),
    ensures
        rotated_times(s, s.len()) == s,
        rotated(s).len() == s.len(),
{
    lemma_rotated_times(s, s.len());
    assert(s.subrange(s.len() as int, s.len() as int) + s.subrange(0, s.len() as int) =~= s);
}

/// Keeping the non-full cells of a column without full rows keeps all of it.
pub proof fn lemma_kept_all(s: Seq<Color>)
    requires
        forall|i: int| 0 <= i < s.len() ==> is_kept(#[trigger] s[i]),
    ensures
        kept(s) == s,
    decreases s.len(),
{
    if s.len() > 0 {
        let init = s.drop_last();
        lemma_kept_all(init);
        assert(init.push(s.last()) =~= s);
        lemma_kept_push(init, s.last());
    } else {
        reveal_with_fuel(Seq::filter, 1);
    }
}

/// Clearing full rows keeps the height of the column, leaves no full row,
/// and clearing again changes nothing.
pub proof fn lemma_clearing(s: Seq<Color>)
    ensures
        cleared(s).len() == s.len(),
        forall|i: int| 0 <= i < s.len() ==> #[trigger] cleared(s)[i] != spec_white(),
        count_white(cleared(s)) == 0,
        cleared(cleared(s)) == cleared(s),
{
    let pred = |c: Color| is_kept(c);
    s.lemma_filter_len(pred);
    let c = cleared(s);
    let n = count_white(s);
    assert forall|i: int| 0 <= i < c.len() implies is_kept(#[trigger] c[i]) by {
        if i >= n {
            s.lemma_filter_pred(pred, i - n);
        }
    }
    lemma_kept_all(c);
    assert(blank_rows(0) + c =~= c);
}

/// Pieces never fall more slowly as the level rises, and always wait at
/// least one frame per row.
pub proof fn lemma_speed_rises(low: u32, high: u32)
    requires
        low <= high,
    ensures
        frames_per_row(high) <= frames_per_row(low),
        frames_per_row(high) >= 1,
{
}

/// A piece of primary colours mixed into any colour leaves a non-empty cell.
pub proof fn lemma_primary_mix_is_lit(c: Color, p: Color)
    requires
        is_piece_color(p),
        blendable(c, p),
    ensures
        spec_blend(c, p) != spec_black(),
{
}

/// A piece resting where it is still rests where it comes down, and can
/// fall no further there.
pub proof fn lemma_landing_keeps_rest(cells: Seq<Color>, piece: Seq<Color>, pos: int)
    requires
        rests_at(cells, piece, pos),
    ensures
        rests_at(cells, piece, pos + drop_distance(cells, piece, pos)),
        !can_descend(cells, piece, pos + drop_distance(cells, piece, pos)),
    decreases cells.len() - pos,
{
    lemma_landing_is_final(cells, piece, pos);
    if can_descend(cells, piece, pos) {
        assert forall|i: int| 0 <= i < piece.len() implies !spec_collides(
            cells[pos + 1 + i],
            #[trigger] piece[i],
        ) by {
            assert(!spec_collides(cells[pos + i + 1], piece[i]));
        }
        lemma_landing_keeps_rest(cells, piece, pos + 1);
    }
}

/// A resting piece that can fall no further lands on top of the stack:
/// landing a piece of primary colours keeps the landed cells one stack.
pub proof fn lemma_merge_keeps_stack(cells: Seq<Color>, piece: Seq<Color>, pos: int)
    requires
        stacked(cells),
        forall|i: int| 0 <= i < piece.len() ==> is_piece_color(#[trigger] piece[i]),
        rests_at(cells, piece, pos),
        !can_descend(cells, piece, pos),
    ensures
        stacked(merged(cells, piece, pos)),
        merged(cells, piece, pos).len() == cells.len(),
{
    let m = merged(cells, piece, pos);
    let e = pos + piece.len();
    if e < cells.len() {
        let k = choose|k: int| 0 <= k < piece.len() && spec_collides(cells[pos + k + 1], piece[k]);
        assert(cells[pos + k + 1] != spec_black());
        if pos + k + 1 < e {
            assert(cells[e] != spec_black());
        }
    }
    assert forall|j: int| pos <= j < e implies #[trigger] m[j] != spec_black() by {
        assert(!spec_collides(cells[pos + (j - pos)], piece[j - pos]));
        lemma_primary_mix_is_lit(cells[j], piece[j - pos]);
    }
    assert forall|i: int, j: int|
        #![trigger m[i], m[j]]
        0 <= i < j < m.len() && m[i] != spec_black() implies m[j] != spec_black() by {
        if pos <= j < e {
            assert(m[j] != spec_black());
        } else if j >= e {
            if e < j {
                assert(cells[e] != spec_black() ==> cells[j] != spec_black());
            }
        } else {
            assert(cells[i] != spec_black() ==> cells[j] != spec_black());
        }
    }
}

/// When every full row of a column lies within `k` rows starting at row
/// `a`, the column has at most `k` full rows.
pub proof fn lemma_white_window(s: Seq<Color>, a: int, k: int)
    requires
        0 <= a,
        0 <= k,
        forall|i: int| 0 <= i < s.len() && #[trigger] s[i] == spec_white() ==> a <= i < a + k,
    ensures
        count_white(s) <= k,
        count_white(s) == 0 || count_white(s) + a <= s.len(),
    decreases s.len(),
{
    if s.len() == 0 {
        assert(kept(s) =~= s) by {
            reveal_with_fuel(Seq::filter, 1);
        }
    } else {
        let init = s.drop_last();
        assert(init.push(s.last()) =~= s);
        lemma_cleared_push(init, s.last());
        assert forall|i: int| 0 <= i < init.len() && #[trigger] init[i] == spec_white() implies a
            <= i < a + k by {
            assert(s[i] == init[i]);
        }
        lemma_white_window(init, a, k);
    }
}

/// Every cell is empty.
pub open spec fn all_black(s: Seq<Color>) -> bool {
    forall|i: int| 0 <= i < s.len() ==> #[trigger] s[i] == spec_black()
}

/// Clearing full rows keeps the landed cells one stack at the bottom.
pub proof fn lemma_clear_keeps_stack(s: Seq<Color>)
    ensures
        stacked(s) ==> stacked(cleared(s)),
        all_black(s) ==> all_black(cleared(s)),
    decreases s.len(),
{
    if s.len() == 0 {
        assert(cleared(s) =~= s) by {
            reveal_with_fuel(Seq::filter, 1);
        }
    } else {
        let init = s.drop_last();
        let x = s.last();
        assert(init.push(x) =~= s);
        lemma_cleared_push(init, x);
        lemma_clear_keeps_stack(init);
        let c = cleared(init);
        if stacked(s) {
            assert forall|i: int, j: int|
                #![trigger init[i], init[j]]
                0 <= i < j < init.len() && init[i] != spec_black() implies init[j]
                != spec_black() by {
                assert(s[i] == init[i] && s[j] == init[j]);
            }
            if x == spec_black() {
                assert forall|i: int| 0 <= i < init.len() implies #[trigger] init[i]
                    == spec_black() by {
                    assert(s[i] == init[i]);
                    assert(s[i] != spec_black() ==> s[s.len() - 1] != spec_black());
                }
            }
        }
        if all_black(s) {
            assert forall|i: int| 0 <= i < init.len() implies #[trigger] init[i]
                == spec_black() by {
                assert(s[i] == init[i]);
            }
        }
        if x == spec_white() {
            let r = seq![spec_black()] + c;
            if stacked(s) {
                assert forall|i: int, j: int|
                    #![trigger r[i], r[j]]
                    0 <= i < j < r.len() && r[i] != spec_black() implies r[j]
                    != spec_black() by {
                    assert(r[i] == c[i - 1] && r[j] == c[j - 1]);
                }
            }
        } else {
            let r = c.push(x);
            if stacked(s) {
                assert forall|i: int, j: int|
                    #![trigger r[i], r[j]]
                    0 <= i < j < r.len() && r[i] != spec_black() implies r[j]
                    != spec_black() by {
                    if j < c.len() {
                        assert(r[i] == c[i] && r[j] == c[j]);
                    } else if x == spec_black() {
                        assert(r[i] == c[i]);
                    }
                }
            }
            if all_black(s) {
                assert forall|i: int| 0 <= i < r.len() implies #[trigger] r[i]
                    == spec_black() by {
                    if i < c.len() {
                        assert(r[i] == c[i]);
                    }
                }
            }
        }
    }
}

/// A piece that moves down a row rests on its new row.
pub proof fn lemma_descend_keeps_rest(cells: Seq<Color>, piece: Seq<Color>, pos: int)
    requires
        0 <= pos,
        can_descend(cells, piece, pos),
    ensures
        rests_at(cells, piece, pos + 1),
{
    assert forall|i: int| 0 <= i < piece.len() implies !spec_collides(
        cells[pos + 1 + i],
        #[trigger] piece[i],
    ) by {
        assert(!spec_collides(cells[pos + i + 1], piece[i]));
    }
}

/// Landing a resting piece that can fall no further, on a column with no
/// full row, keeps the landed cells one stack and leaves at most as many
/// full rows as the piece has cells.
pub proof fn lemma_landed_keeps_play(cells: Seq<Color>, piece: Seq<Color>, pos: int)
    requires
        stacked(cells),
        no_white(cells),
        is_piece_shape(piece),
        rests_at(cells, piece, pos),
        !can_descend(cells, piece, pos),
    ensures
        merged(cells, piece, pos).len() == cells.len(),
        stacked(merged(cells, piece, pos)),
        count_white(merged(cells, piece, pos)) <= MAX_PIECE_SIZE,
{
    lemma_merge_keeps_stack(cells, piece, pos);
    let m = merged(cells, piece, pos);
    assert forall|i: int| 0 <= i < m.len() && #[trigger] m[i] == spec_white() implies pos <= i
        < pos + piece.len() by {
        if !(pos <= i < pos + piece.len()) {
            assert(m[i] == cells[i]);
        }
    }
    lemma_white_window(m, pos, piece.len() as int);
}

/// Clearing full rows keeps the column's height and its stack, leaves no
/// full row, and changes nothing on a column without full rows.
pub proof fn lemma_clear_keeps_play(cells: Seq<Color>)
    ensures
        cleared(cells).len() == cells.len(),
        stacked(cells) ==> stacked(cleared(cells)),
        no_white(cleared(cells)),
        count_white(cleared(cells)) == 0,
        no_white(cells) ==> cleared(cells) == cells,
{
    lemma_clear_keeps_stack(cells);
    lemma_clearing(cells);
    if no_white(cells) {
        lemma_kept_all(cells);
        assert(cleared(cells) =~= cells);
    }
}

/// A playable game passes every check made before a step, as long as the
/// score and the line count have room: the board can be shown, the falling
/// piece lands safely, the entry row can be read, every input is accepted
/// (a hard drop when the score has room for a fall down the whole board),
/// and without a falling piece at most three rows clear at once.
pub proof fn lemma_playable_checks(g: Game)
    requires
        g.playable(),
    ensures
        g.board.showable(),
        g.board.lands_safely(),
        g.board.cells@.len() >= MAX_PIECE_SIZE,
        accepts(g.board, g.score, Input::Rotate),
        accepts(g.board, g.score, Input::ToggleColorBlind),
        accepts(g.board, g.score, Input::Quit),
        accepts(g.board, g.score, Input::Ignored),
        g.score + BOARD_HEIGHT <= u32::MAX ==> accepts(g.board, g.score, Input::HardDrop),
        g.board.curr_piece is None ==> count_white(g.board.cells@) <= MAX_PIECE_SIZE,
        g.board.curr_piece is None && g.score + 400 * (level_of(g.lines) + 1) <= u32::MAX
            && g.lines + MAX_PIECE_SIZE <= u32::MAX ==> clearable(g.board, g.lines, g.score),
{
    let cells = g.board.cells@;
    match g.board.curr_piece {
        Some(p) => {
            let pos = p.pos as int;
            assert forall|row: int|
                0 <= row < cells.len() && p.covers(row) implies blendable(
                p.cells@[row - p.pos],
                #[trigger] cells[row],
            ) by {
                assert(!spec_collides(cells[pos + (row - pos)], p.cells@[row - pos]));
            }
            assert forall|i: int| 0 <= i < p.cells@.len() implies blendable(
                cells[pos + i],
                #[trigger] p.cells@[i],
            ) by {
                assert(!spec_collides(cells[pos + i], p.cells@[i]));
            }
            lemma_landing_inside(cells, p.cells@, pos);
        },
        None => {
            let n = count_white(cells);
            let bonus = level_of(g.lines) + 1;
            assert(line_points(n) <= 400);
            assert(line_points(n) * bonus <= 400 * bonus) by (nonlinear_arith)
                requires
                    line_points(n) <= 400,
                    bonus >= 0,
            ;
        },
    }
}

/// Falling `j` rows uses up `j` rows of the distance a piece falls.
pub proof fn lemma_drop_distance_split(cells: Seq<Color>, piece: Seq<Color>, pos: int, j: nat)
    requires
        j <= drop_distance(cells, piece, pos),
    ensures
        drop_distance(cells, piece, pos) == j + drop_distance(cells, piece, pos + j),
    decreases j,
{
    if j > 0 {
        lemma_drop_distance_split(cells, piece, pos, (j - 1) as nat);
        assert(drop_distance(cells, piece, pos + (j - 1)) >= 1);
        assert(can_descend(cells, piece, pos + (j - 1)));
        assert(pos + (j - 1) + 1 == pos + j);
    }
}

/// Until a piece has fallen as far as it can, each gravity tick moves it
/// down one row.
pub proof fn lemma_ticks_fall(cells: Seq<Color>, piece: Seq<Color>, pos: int, k: nat)
    requires
        k <= drop_distance(cells, piece, pos),
    ensures
        ticks((cells, Some((piece, pos))), k) == (cells, Some((piece, pos + k))),
    decreases k,
{
    if k > 0 {
        lemma_ticks_fall(cells, piece, pos, (k - 1) as nat);
        lemma_drop_distance_split(cells, piece, pos, (k - 1) as nat);
        assert(can_descend(cells, piece, pos + (k - 1)));
        assert(pos + (k - 1) + 1 == pos + k);
    }
}

/// The tick after a piece has fallen as far as it can lands it, and later
/// ticks change nothing.
pub proof fn lemma_ticks_land(cells: Seq<Color>, piece: Seq<Color>, pos: int, k: nat)
    requires
        k > drop_distance(cells, piece, pos),
    ensures
        ticks((cells, Some((piece, pos))), k) == (
            merged(cells, piece, pos + drop_distance(cells, piece, pos)),
            None::<(Seq<Color>, int)>,
        ),
    decreases k,
{
    let d = drop_distance(cells, piece, pos);
    if k == d + 1 {
        lemma_ticks_fall(cells, piece, pos, d);
        lemma_drop_distance_split(cells, piece, pos, d);
        assert(!can_descend(cells, piece, pos + d));
        assert(ticks((cells, Some((piece, pos))), k) == crate::board::tick_state(
            ticks((cells, Some((piece, pos))), d),
        ));
    } else {
        lemma_ticks_land(cells, piece, pos, (k - 1) as nat);
    }
}

/// A piece that comes in at the top of a column of `n` rows is still
/// falling after each of its first `d` ticks (`d` the distance it falls),
/// lands on tick `d + 1`, and has landed after `n - len + 1` ticks.
pub proof fn lemma_spawned_piece_lands(cells: Seq<Color>, piece: Seq<Color>)
    requires
        piece.len() <= cells.len(),
    ensures
        forall|k: nat|
            k <= drop_distance(cells, piece, 0) ==> (#[trigger] ticks(
                (cells, Some((piece, 0int))),
                k,
            )).1 is Some,
        ticks((cells, Some((piece, 0int))), drop_distance(cells, piece, 0) + 1) == (
            merged(cells, piece, drop_distance(cells, piece, 0) as int),
            None::<(Seq<Color>, int)>,
        ),
        drop_distance(cells, piece, 0) + 1 <= cells.len() - piece.len() + 1,
        ticks((cells, Some((piece, 0int))), (cells.len() - piece.len() + 1) as nat).1 is None,
{
    lemma_landing_inside(cells, piece, 0);
    assert forall|k: nat| k <= drop_distance(cells, piece, 0) implies (#[trigger] ticks(
        (cells, Some((piece, 0int))),
        k,
    )).1 is Some by {
        lemma_ticks_fall(cells, piece, 0, k);
    }
    lemma_ticks_land(cells, piece, 0, drop_distance(cells, piece, 0) + 1);
    lemma_ticks_land(cells, piece, 0, (cells.len() - piece.len() + 1) as nat);
}

/// One step of the game loop, as the library's functions take it.
pub enum Move {
    /// `Game::tick`.
    Tick,
    /// `Game::apply` with an input.
    Play(Input),
    /// `Game::clear_and_score`.
    Clear,
    /// `Game::spawn_next`.
    Spawn,
}

/// The step `m` leads from `pre` to `post`, as its function ensures.
pub open spec fn moves(pre: Game, m: Move, post: Game) -> bool {
    match m {
        Move::Tick => ticked(pre, post),
        Move::Play(input) => played(pre, input, post),
        Move::Clear => cleared_scored(pre, post),
        Move::Spawn => spawn_result(pre, post),
    }
}

/// The step `m` is taken where the game loop takes it: rows are cleared and
/// a piece brought in only when no piece falls, a piece comes in only on a
/// column without full rows, and (the one fault the loop can reach) a
/// turned piece does not overlap its own colour.
pub open spec fn loop_allows(pre: Game, m: Move) -> bool {
    match m {
        Move::Clear => pre.board.curr_piece is None,
        Move::Spawn => pre.board.curr_piece is None && no_white(pre.board.cells@),
        Move::Play(Input::Rotate) => rotation_rests(pre.board),
        _ => true,
    }
}

/// Every step of the game loop keeps a game playable; after clearing, no
/// row is full and no piece falls.
pub proof fn lemma_move_keeps_playable(pre: Game, m: Move, post: Game)
    requires
        pre.playable(),
        moves(pre, m, post),
        loop_allows(pre, m),
    ensures
        post.playable(),
        m is Clear ==> no_white(post.board.cells@) && post.board.curr_piece is None,
{
    let cells = pre.board.cells@;
    match m {
        Move::Tick => {
            match pre.board.curr_piece {
                None => {
                    assert(post.board.fall_state() == pre.board.fall_state());
                    assert(post.board.cells@ == cells);
                    assert(post.board.curr_piece is None);
                },
                Some(p) => {
                    assert(post.board.cells@ == post.board.fall_state().0);
                    if can_descend(cells, p.cells@, p.pos as int) {
                        lemma_descend_keeps_rest(cells, p.cells@, p.pos as int);
                        assert(post.board.fall_state().1 == Some((p.cells@, p.pos + 1)));
                        let q = post.board.curr_piece->0;
                        assert(q.cells@ == p.cells@);
                    } else {
                        lemma_landed_keeps_play(cells, p.cells@, p.pos as int);
                        assert(post.board.fall_state().1 is None);
                    }
                },
            }
        },
        Move::Play(input) => {
            match input {
                Input::Rotate => {
                    if pre.board.curr_piece is Some {
                        let c = pre.board.curr_piece->0.cells@;
                        assert forall|i: int| 0 <= i < c.len() implies is_piece_color(
                            #[trigger] rotated(c)[i],
                        ) by {
                            if i < c.len() - 1 {
                                assert(rotated(c)[i] == c[i + 1]);
                            } else {
                                assert(rotated(c)[i] == c[0]);
                            }
                        }
                    }
                },
                Input::HardDrop => {
                    if pre.board.curr_piece is Some {
                        let p = pre.board.curr_piece->0;
                        lemma_landing_keeps_rest(cells, p.cells@, p.pos as int);
                        lemma_landed_keeps_play(
                            cells,
                            p.cells@,
                            p.pos + drop_distance(cells, p.cells@, p.pos as int),
                        );
                    }
                },
                _ => {},
            }
        },
        Move::Clear => {
            lemma_clear_keeps_play(cells);
        },
        Move::Spawn => {
            if cells[MAX_PIECE_SIZE - 1] == spec_black() {
                let p = pre.upcoming()->0;
                assert forall|i: int| 0 <= i < p.cells@.len() implies !spec_collides(
                    cells[0 + i],
                    #[trigger] p.cells@[i],
                ) by {
                    if i < 2 {
                        assert(cells[i] != spec_black() ==> cells[2] != spec_black());
                    }
                }
            }
        },
    }
}

/// The conditions under which `states` and `ms` form a run of the game
/// loop: each step leads from one state to the next as its function
/// ensures, and is taken where the loop takes it.
#[verifier::opaque]
pub open spec fn is_loop_run(states: Seq<Game>, ms: Seq<Move>) -> bool {
    &&& states.len() == ms.len() + 1
    &&& forall|i: int| 0 <= i < ms.len() ==> moves(states[i], #[trigger] ms[i], states[i + 1])
    &&& forall|i: int|
        0 <= i < ms.len() ==> (#[trigger] ms[i] is Clear ==> states[i].board.curr_piece is None)
    &&& forall|i: int|
        0 <= i < ms.len() ==> (#[trigger] ms[i] is Spawn ==> 0 < i && ms[i - 1] is Clear)
    &&& forall|i: int|
        0 <= i < ms.len() ==> (#[trigger] ms[i] == Move::Play(Input::Rotate) ==> rotation_rests(
            states[i].board,
        ))
}

/// State `i` of a run is playable, and right after a clearing step no row
/// is full and no piece falls.
#[verifier::opaque]
pub open spec fn sound_at(states: Seq<Game>, ms: Seq<Move>, i: int) -> bool {
    &&& states[i].playable()
    &&& (0 < i && ms[i - 1] is Clear) ==> (no_white(states[i].board.cells@)
        && states[i].board.curr_piece is None)
}

/// One step of a run keeps its states sound.
proof fn lemma_run_step(states: Seq<Game>, ms: Seq<Move>, i: int)
    requires
        is_loop_run(states, ms),
        0 <= i < ms.len(),
        sound_at(states, ms, i),
    ensures
        sound_at(states, ms, i + 1),
{
    reveal(sound_at);
    reveal(is_loop_run);
    let m = ms[i];
    assert(moves(states[i], m, states[i + 1]));
    if m is Spawn {
        assert(ms[i - 1] is Clear);
    }
    lemma_move_keeps_playable(states[i], m, states[i + 1]);
}

/// Every state of a run up to step `k` is sound.
proof fn lemma_run_prefix(states: Seq<Game>, ms: Seq<Move>, k: int)
    requires
        is_loop_run(states, ms),
        states[0].playable(),
        0 <= k <= ms.len(),
    ensures
        forall|i: int| 0 <= i <= k ==> #[trigger] sound_at(states, ms, i),
    decreases k,
{
    if k == 0 {
        reveal(sound_at);
    } else {
        lemma_run_prefix(states, ms, k - 1);
        lemma_run_step(states, ms, k - 1);
    }
}

/// Over a whole run of the game loop from a playable game (as `Game::new`
/// makes), every state is playable: the landed cells form one stack, a
/// falling piece rests over colours it does not collide with, the board
/// can be shown, the piece lands safely and the entry row can be read
/// (with `lemma_playable_checks`, every check made before a step passes,
/// given room in the counters), no row is full when a piece comes in, and
/// at most three rows are cleared at once.
pub proof fn lemma_run_stays_playable(states: Seq<Game>, ms: Seq<Move>)
    requires
        is_loop_run(states, ms),
        states[0].playable(),
    ensures
        forall|i: int| 0 <= i < states.len() ==> #[trigger] states[i].playable(),
        forall|i: int|
            0 <= i < states.len() ==> #[trigger] states[i].board.showable()
                && states[i].board.lands_safely() && states[i].board.cells@.len() >= MAX_PIECE_SIZE,
        forall|i: int|
            0 <= i < ms.len() && #[trigger] ms[i] is Clear ==> no_white(states[i + 1].board.cells@)
                && count_white(states[i].board.cells@) <= MAX_PIECE_SIZE,
        forall|i: int|
            0 <= i < ms.len() && #[trigger] ms[i] is Spawn ==> no_white(states[i].board.cells@),
{
    reveal(is_loop_run);
    lemma_run_prefix(states, ms, ms.len() as int);
    assert forall|i: int| 0 <= i < states.len() implies #[trigger] states[i].playable() by {
        assert(sound_at(states, ms, i));
        reveal(sound_at);
    }
    assert forall|i: int| 0 <= i < states.len() implies #[trigger] states[i].board.showable()
        && states[i].board.lands_safely() && states[i].board.cells@.len() >= MAX_PIECE_SIZE by {
        assert(sound_at(states, ms, i));
        reveal(sound_at);
        lemma_playable_checks(states[i]);
    }
    assert forall|i: int|
        0 <= i < ms.len() && #[trigger] ms[i] is Clear implies no_white(states[i + 1].board.cells@)
        && count_white(states[i].board.cells@) <= MAX_PIECE_SIZE by {
        reveal(is_loop_run);
        assert(sound_at(states, ms, i));
        assert(sound_at(states, ms, i + 1));
        reveal(sound_at);
        lemma_playable_checks(states[i]);
    }
    assert forall|i: int|
        0 <= i < ms.len() && #[trigger] ms[i] is Spawn implies no_white(states[i].board.cells@) by {
        assert(sound_at(states, ms, i));
        reveal(sound_at);
    }
}

/// Two colours collide exactly when some channel is lit in both; colours
/// whose lit channels are disjoint (a primary and the mix of the other two,
/// for instance) never collide.
pub proof fn lemma_collision_is_shared_channel(a: Color, b: Color)
    ensures
        spec_collides(a, b) <==> ((a.r > 0 && b.r > 0) || (a.g > 0 && b.g > 0) || (a.b > 0
            && b.b > 0)),
        (a.r == 0 || b.r == 0) && (a.g == 0 || b.g == 0) && (a.b == 0 || b.b == 0) ==> !spec_collides(
            a,
            b,
        ),
{
}

/// Landing a piece adds each of its colours, channel by channel, to the
/// landed colour of the row it covers, and leaves every other row as it
/// was.
pub proof fn lemma_landing_adds_channels(cells: Seq<Color>, piece: Seq<Color>, pos: int)
    requires
        can_merge(cells, piece, pos),
    ensures
        merged(cells, piece, pos).len() == cells.len(),
        forall|i: int|
            0 <= i < piece.len() ==> {
                &&& merged(cells, piece, pos)[pos + i].r == cells[pos + i].r + (#[trigger] piece[i]).r
                &&& merged(cells, piece, pos)[pos + i].g == cells[pos + i].g + piece[i].g
                &&& merged(cells, piece, pos)[pos + i].b == cells[pos + i].b + piece[i].b
            },
        forall|j: int|
            0 <= j < cells.len() && !(pos <= j < pos + piece.len()) ==> #[trigger] merged(
                cells,
                piece,
                pos,
            )[j] == cells[j],
{
    assert forall|i: int| 0 <= i < piece.len() implies {
        &&& merged(cells, piece, pos)[pos + i].r == cells[pos + i].r + (#[trigger] piece[i]).r
        &&& merged(cells, piece, pos)[pos + i].g == cells[pos + i].g + piece[i].g
        &&& merged(cells, piece, pos)[pos + i].b == cells[pos + i].b + piece[i].b
    } by {
        assert(blendable(cells[pos + i], piece[i]));
        assert(pos + i - pos == i);
    }
}

/// The colour shown at a row the falling piece covers (wherever the piece
/// is, the top row included) is the channel-wise sum of the piece's colour
/// and the landed colour; every other row shows its landed colour.
pub proof fn lemma_shown_color_channels(b: Board, row: int)
    requires
        b.showable(),
        0 <= row < b.cells@.len(),
    ensures
        match b.curr_piece {
            Some(p) => if p.pos <= row < p.pos + p.cells@.len() {
                &&& b.shown_color(row).r == p.cells@[row - p.pos].r + b.cells@[row].r
                &&& b.shown_color(row).g == p.cells@[row - p.pos].g + b.cells@[row].g
                &&& b.shown_color(row).b == p.cells@[row - p.pos].b + b.cells@[row].b
            } else {
                b.shown_color(row) == b.cells@[row]
            },
            None => b.shown_color(row) == b.cells@[row],
        },
{
}

/// The speed table: 48 frames per row at level 0, five fewer for each
/// level up to 8, then 6 at level 9, 5 for levels 10 to 12, 4 for 13 to
/// 15, 3 for 16 to 18, 2 for 19 to 28 and 1 from 29 on; a frame is 33 ms.
pub proof fn lemma_speed_table(level: u32, lines: u32)
    ensures
        level <= 8 ==> frames_per_row(level) == 48 - 5 * level,
        level == 9 ==> frames_per_row(level) == 6,
        10 <= level <= 12 ==> frames_per_row(level) == 5,
        13 <= level <= 15 ==> frames_per_row(level) == 4,
        16 <= level <= 18 ==> frames_per_row(level) == 3,
        19 <= level <= 28 ==> frames_per_row(level) == 2,
        29 <= level ==> frames_per_row(level) == 1,
        delay_ms(lines) == 33 * frames_per_row(lines / 10),
{
}

/// The palette of piece colours is exactly the three primaries: each of the
/// indices 0, 1 and 2 picks a different primary, and every primary is
/// picked by one of them.
pub proof fn lemma_palette_is_the_primaries(c: Color)
    ensures
        is_piece_color(c) <==> exists|i: int| 0 <= i < 3 && #[trigger] spec_piece_color(i) == c,
        spec_piece_color(0) != spec_piece_color(1),
        spec_piece_color(1) != spec_piece_color(2),
        spec_piece_color(0) != spec_piece_color(2),
{
    if c == spec_red() {
        assert(spec_piece_color(0) == c);
    } else if c == spec_green() {
        assert(spec_piece_color(1) == c);
    } else if c == spec_blue() {
        assert(spec_piece_color(2) == c);
    }
}

/// A piece dealt from draws over the whole palette is a fresh piece, and
/// its colour at each row is the palette entry its draw picked.
pub proof fn lemma_dealt_piece_is_fresh(p: Piece, draws: Seq<Draw>)
    requires
        dealt_from(p, draws),
        forall|i: int| 0 <= i < draws.len() ==> (#[trigger] draws[i]).0 <= draws[i].2 <= draws[i].1,
    ensures
        is_fresh_piece(p),
{
    assert forall|i: int| 0 <= i < p.cells@.len() implies is_piece_color(#[trigger] p.cells@[i]) by {
        assert(draws[i + 1].2 <= 2);
    }
}

} // verus!
