//! A game: the board, the next piece, the score, and the rules that move a
//! game from one moment to the next.
use vstd::prelude::*;
use std::time::Duration;
use num_format::{Locale, ToFormattedString};
use rand::rngs::SmallRng;
use rand::RngExt;
use crate::display::{
    black, blue, green, red, spec_black, spec_blue, spec_collides, spec_green, spec_red, Color,
};
use crate::board::{
    blank_rows, can_descend, can_merge, cleared, count_white, drop_distance, merged, no_white,
    rests_at, rotated, stacked, tick_state, Board, Piece,
};
use crate::board::{full_rows, landing_distance, piece_lands_safely};
use crate::laws::{
    lemma_clear_keeps_play, lemma_descend_then_merge,
    lemma_descend_keeps_rest, lemma_landed_keeps_play, lemma_landing_keeps_rest,
    lemma_white_window,
};

verus! {

/// The random number generator that picks the pieces.
#[verifier::external_type_specification]
#[verifier::external_body]
pub struct ExSmallRng(SmallRng);

/// A generator seeded from the operating system's entropy, by
/// `rand::make_rng`. Nothing is claimed of its state.
#[verifier::external_body]
fn seeded_rng() -> SmallRng {
    rand::make_rng()
}

/// A number drawn by `rand::RngExt::random_range` from `low..=high`,
/// with a ghost record of the range it was drawn from; the claim is only
/// that the number lies in that range (`random_range` panics on an empty
/// range, hence `low <= high`).
#[verifier::external_body]
fn random_between(rng: &mut SmallRng, low: usize, high: usize) -> (drawn: (usize, Ghost<(usize, usize)>))
    requires
        low <= high,
    ensures
        low <= drawn.0 <= high,
        drawn.1@ == (low, high),
{
    (rng.random_range(low..=high), Ghost((low, high)))
}

/// A record of one random draw: the range asked for and the number drawn.
pub type Draw = (usize, usize, usize);

/// A piece was dealt from `draws`: the first draw picked its height from
/// one to three, and each further draw picked one cell's colour from the
/// whole palette (red, green and blue: indices 0 to 2), in order.
pub open spec fn dealt_from(p: Piece, draws: Seq<Draw>) -> bool {
    &&& draws.len() == p.cells@.len() + 1
    &&& draws[0].0 == 1 && draws[0].1 == MAX_PIECE_SIZE && draws[0].2 == p.cells@.len()
    &&& forall|i: int|
        0 <= i < p.cells@.len() ==> {
            &&& (#[trigger] draws[i + 1]).0 == 0
            &&& draws[i + 1].1 == 2
            &&& p.cells@[i] == spec_piece_color(draws[i + 1].2 as int)
        }
    &&& p.pos == 0
}

/// The character of a decimal digit.
pub open spec fn digit_char(d: nat) -> char {
    (d + 48) as char
}

/// The decimal digits of `n`, most significant first, with no leading
/// zero (`0` is written as one digit).
pub open spec fn decimal_digits(n: nat) -> Seq<char>
    decreases n,
{
    if n < 10 {
        seq![digit_char(n)]
    } else {
        decimal_digits(n / 10).push(digit_char(n % 10))
    }
}

/// The three decimal digits of `n` (below 1000), padded with zeros.
pub open spec fn three_digits(n: nat) -> Seq<char> {
    seq![digit_char(n / 100), digit_char((n / 10) % 10), digit_char(n % 10)]
}

/// `n` in decimal with its digits grouped by thousands and the groups
/// separated by commas, as the English locale writes numbers.
pub open spec fn en_grouped(n: nat) -> Seq<char>
    decreases n,
{
    if n < 1000 {
        decimal_digits(n)
    } else {
        en_grouped(n / 1000) + seq![','] + three_digits(n % 1000)
    }
}

/// `num_format::ToFormattedString::to_formatted_string` with
/// `Locale::en`, whose separator is `,` and whose grouping is by
/// thousands: the claim is that the result is the grouped decimal form.
#[verifier::external_body]
fn grouped(n: u32) -> (s: String)
    ensures
        s@ == en_grouped(n as nat),
{
    n.to_formatted_string(&Locale::en)
}

/// The duration `Duration::from_millis` makes of `ms` milliseconds.
pub uninterp spec fn duration_of_millis(ms: u64) -> Duration;

/// `std::time::Duration::from_millis`; the claim is only that the result is
/// a function of `ms`.
#[verifier::external_body]
fn millis(ms: u64) -> (d: Duration)
    ensures
        d == duration_of_millis(ms),
{
    Duration::from_millis(ms)
}

/// The tallest piece.
pub const MAX_PIECE_SIZE: usize = 3;

/// The number of rows of the board.
pub const BOARD_HEIGHT: u16 = 32;

/// The number of terminal rows the game needs.
pub const GAME_HEIGHT: u16 = BOARD_HEIGHT + 1;

/// The number of terminal columns the game needs.
pub const GAME_WIDTH: u16 = 35;

/// Milliseconds in one frame (about 30 frames a second).
pub const FRAME_MS: u64 = 33;

/// The colours a piece is made of.
pub open spec fn spec_piece_color(i: int) -> Color {
    if i == 0 {
        spec_red()
    } else if i == 1 {
        spec_green()
    } else {
        spec_blue()
    }
}

/// A primary colour, of which pieces are made.
pub open spec fn is_piece_color(c: Color) -> bool {
    c == spec_red() || c == spec_green() || c == spec_blue()
}

/// A piece as it enters the board: at the top, one to three cells high,
/// each cell a primary colour.
pub open spec fn is_fresh_piece(p: Piece) -> bool {
    &&& p.pos == 0
    &&& 1 <= p.cells@.len() <= MAX_PIECE_SIZE
    &&& forall|i: int| 0 <= i < p.cells@.len() ==> is_piece_color(#[trigger] p.cells@[i])
}

/// The colour at index `i` of the piece palette (red, green, blue).
fn piece_color(i: usize) -> (c: Color)
    requires
        i < 3,
    ensures
        c == spec_piece_color(i as int),
        is_piece_color(c),
{
    if i == 0 {
        red()
    } else if i == 1 {
        green()
    } else {
        blue()
    }
}

/// The piece dealt for a list of draws: one cell per draw, top first, the
/// draw choosing red (0), green (1) or blue (2); it starts at the top.
pub fn piece_of_draws(picks: &Vec<usize>) -> (p: Piece)
    requires
        1 <= picks@.len() <= MAX_PIECE_SIZE,
        forall|i: int| 0 <= i < picks@.len() ==> #[trigger] picks@[i] < 3,
    ensures
        p.pos == 0,
        p.cells@.len() == picks@.len(),
        forall|i: int|
            0 <= i < picks@.len() ==> #[trigger] p.cells@[i] == spec_piece_color(picks@[i] as int),
        is_fresh_piece(p),
{
    let size = picks.len();
    let mut cells = vec![black(); size];
    let mut i: usize = 0;
    while i < size
        invariant
            i <= size,
            size == picks@.len(),
            1 <= size <= MAX_PIECE_SIZE,
            forall|k: int| 0 <= k < picks@.len() ==> #[trigger] picks@[k] < 3,
            cells@.len() == size,
            forall|j: int| 0 <= j < i ==> #[trigger] cells@[j] == spec_piece_color(picks@[j] as int),
            forall|j: int| 0 <= j < i ==> is_piece_color(#[trigger] cells@[j]),
        decreases size - i,
    {
        let c = piece_color(picks[i]);
        cells.set(i, c);
        i += 1;
    }
    Piece { cells, pos: 0 }
}

/// A random piece: a random height from one to three, then a random
/// primary colour for each cell, dealt by `piece_of_draws`.
fn rand_piece(rng: &mut SmallRng) -> (dealt: (Piece, Ghost<Seq<Draw>>))
    ensures
        is_fresh_piece(dealt.0),
        dealt_from(dealt.0, dealt.1@),
{
    let (size, size_range) = random_between(rng, 1, MAX_PIECE_SIZE);
    let ghost mut draws: Seq<Draw> = seq![(size_range@.0, size_range@.1, size)];
    let mut picks: Vec<usize> = Vec::new();
    while picks.len() < size
        invariant
            1 <= size <= MAX_PIECE_SIZE,
            picks@.len() <= size,
            forall|k: int| 0 <= k < picks@.len() ==> #[trigger] picks@[k] < 3,
            draws.len() == picks@.len() + 1,
            draws[0] == (1usize, MAX_PIECE_SIZE, size),
            forall|k: int|
                0 <= k < picks@.len() ==> (#[trigger] draws[k + 1]).0 == 0 && draws[k + 1].1 == 2
                    && draws[k + 1].2 == picks@[k],
        decreases size - picks@.len(),
    {
        let (pick, pick_range) = random_between(rng, 0, 2);
        proof {
            draws = draws.push((pick_range@.0, pick_range@.1, pick));
        }
        picks.push(pick);
    }
    let p = piece_of_draws(&picks);
    proof {
        assert forall|i: int| 0 <= i < p.cells@.len() implies {
            &&& (#[trigger] draws[i + 1]).0 == 0
            &&& draws[i + 1].1 == 2
            &&& p.cells@[i] == spec_piece_color(draws[i + 1].2 as int)
        } by {
            assert(draws[i + 1].2 == picks@[i]);
        }
    }
    (p, Ghost(draws))
}

/// Points for clearing `n` rows at once, before the level bonus.
pub open spec fn line_points(n: nat) -> nat {
    if n == 1 {
        40
    } else if n == 2 {
        100
    } else if n == 3 {
        400
    } else if n == 4 {
        1200
    } else {
        0
    }
}

/// Points for clearing `n` rows at once (one to four), before the level
/// bonus.
pub fn points_for_lines(n: u32) -> (points: u32)
    requires
        1 <= n <= 4,
    ensures
        points == line_points(n as nat),
{
    match n {
        1 => 40,
        2 => 100,
        3 => 400,
        _ => 1200,
    }
}

/// How many frames a piece waits on each row at a given level.
pub open spec fn frames_per_row(level: u32) -> u64 {
    if level == 0 {
        48
    } else if level == 1 {
        43
    } else if level == 2 {
        38
    } else if level == 3 {
        33
    } else if level == 4 {
        28
    } else if level == 5 {
        23
    } else if level == 6 {
        18
    } else if level == 7 {
        13
    } else if level == 8 {
        8
    } else if level == 9 {
        6
    } else if level <= 12 {
        5
    } else if level <= 15 {
        4
    } else if level <= 18 {
        3
    } else if level <= 28 {
        2
    } else {
        1
    }
}

/// How many frames a piece waits on each row at a given level.
pub fn frames_per_square(level: u32) -> (frames: u64)
    ensures
        frames == frames_per_row(level),
        level <= 8 ==> frames == 48 - 5 * level,
        level == 9 ==> frames == 6,
        10 <= level <= 12 ==> frames == 5,
        13 <= level <= 15 ==> frames == 4,
        16 <= level <= 18 ==> frames == 3,
        19 <= level <= 28 ==> frames == 2,
        29 <= level ==> frames == 1,
{
    match level {
        0 => 48,
        1 => 43,
        2 => 38,
        3 => 33,
        4 => 28,
        5 => 23,
        6 => 18,
        7 => 13,
        8 => 8,
        9 => 6,
        10..=12 => 5,
        13..=15 => 4,
        16..=18 => 3,
        19..=28 => 2,
        _ => 1,
    }
}

/// What the player asked for.
#[derive(Clone, Copy, Debug, PartialEq, Eq, Structural)]
pub enum Input {
    /// Leave the game.
    Quit,
    /// Turn the falling piece.
    Rotate,
    /// Switch colour-blind mode on or off.
    ToggleColorBlind,
    /// Let the falling piece fall as far as it can and land.
    HardDrop,
    /// Anything else.
    Ignored,
}

/// What the game asks of its driver after an input.
#[derive(Clone, Copy, Debug, PartialEq, Eq, Structural)]
pub enum Reaction {
    /// Keep the piece falling.
    Continue,
    /// The player left: end the game.
    Quit,
    /// The piece has landed: show the board, and bring in the next piece.
    Landed,
}

/// What the info panel shows.
#[derive(Clone, Debug)]
pub struct Panel {
    /// The next piece, top cell first, padded with empty cells to five rows.
    pub next_cells: Vec<Color>,
    /// Cleared rows so far, with thousands grouped.
    pub lines: String,
    /// The current level.
    pub level: u32,
    /// The score, with thousands grouped.
    pub score: String,
}

/// Where pieces come from: the piece that comes in next, and the random
/// source that picks the one after it.
pub struct Dealer {
    next_piece: Option<Piece>,
    rng: SmallRng,
    next_draws: Ghost<Seq<Draw>>,
}

impl Dealer {
    /// The piece that comes in next.
    pub closed spec fn next(self) -> Option<Piece> {
        self.next_piece
    }

    /// The random draws the next piece was dealt from.
    pub closed spec fn next_draws(self) -> Seq<Draw> {
        self.next_draws@
    }
}

/// One game.
pub struct Game {
    pub lines: u32,
    pub score: u32,
    pub board: Board,
    pub dealer: Dealer,
}

/// The colour shown at row `i` of the preview of piece `next`.
pub open spec fn preview_cell(next: Option<Piece>, i: int) -> Color {
    match next {
        Some(p) => if 0 <= i < p.cells@.len() {
            p.cells@[i]
        } else {
            spec_black()
        },
        None => spec_black(),
    }
}

/// The level a number of cleared rows reaches.
pub open spec fn level_of(lines: u32) -> u32 {
    (lines / 10) as u32
}

/// The time a piece waits on each row, in milliseconds, after `lines`
/// cleared rows.
pub open spec fn delay_ms(lines: u32) -> u64 {
    (FRAME_MS * frames_per_row(level_of(lines))) as u64
}

/// Clearing the full rows of `board` and scoring them stays within what
/// the game handles: at most four rows at once and no counter overflowing.
pub open spec fn clearable(board: Board, lines: u32, score: u32) -> bool {
    let n = count_white(board.cells@);
    &&& n <= 4
    &&& score + line_points(n) * (level_of(lines) + 1) <= u32::MAX
    &&& lines + n <= u32::MAX
}

/// An input can be handled without a fault: a piece to turn is not empty,
/// and a hard drop lands safely and its points fit the score.
pub open spec fn accepts(board: Board, score: u32, input: Input) -> bool {
    match input {
        Input::Rotate => board.curr_piece matches Some(p) ==> p.cells@.len() > 0,
        Input::HardDrop => board.lands_safely() && (board.curr_piece matches Some(p) ==> score
            + drop_distance(board.cells@, p.cells@, p.pos as int) <= u32::MAX),
        _ => true,
    }
}

/// A stack of colours that can be a piece: one to three cells, each a
/// primary colour.
pub open spec fn is_piece_shape(cells: Seq<Color>) -> bool {
    &&& 1 <= cells.len() <= MAX_PIECE_SIZE
    &&& forall|i: int| 0 <= i < cells.len() ==> is_piece_color(#[trigger] cells[i])
}

/// Turning the falling piece of `board` (if any) leaves it resting where it
/// is, over no colour it collides with.
pub open spec fn rotation_rests(board: Board) -> bool {
    match board.curr_piece {
        Some(p) => rests_at(board.cells@, rotated(p.cells@), p.pos as int),
        None => true,
    }
}

/// One gravity tick leads from `pre` to `post`: the falling piece moves
/// down a row or lands, and nothing else changes.
pub open spec fn ticked(pre: Game, post: Game) -> bool {
    &&& post.board.fall_state() == tick_state(pre.board.fall_state())
    &&& post.board.color_blind == pre.board.color_blind
    &&& post.lines == pre.lines
    &&& post.score == pre.score
    &&& post.dealer == pre.dealer
}

/// Handling `input` leads from `pre` to `post`.
pub open spec fn played(pre: Game, input: Input, post: Game) -> bool {
    &&& post.lines == pre.lines
    &&& post.dealer == pre.dealer
    &&& match input {
        Input::Quit => post == pre,
        Input::Ignored => post == pre,
        Input::ToggleColorBlind => {
            &&& post.board.color_blind == !pre.board.color_blind
            &&& post.board.cells@ == pre.board.cells@
            &&& post.board.curr_piece == pre.board.curr_piece
            &&& post.score == pre.score
        },
        Input::Rotate => {
            &&& post.board.color_blind == pre.board.color_blind
            &&& post.board.cells@ == pre.board.cells@
            &&& post.score == pre.score
            &&& match pre.board.curr_piece {
                None => post.board.curr_piece is None,
                Some(p) => post.board.curr_piece matches Some(q) && q.pos == p.pos && q.cells@
                    == rotated(p.cells@),
            }
        },
        Input::HardDrop => {
            &&& post.board.color_blind == pre.board.color_blind
            &&& post.board.curr_piece is None
            &&& match pre.board.curr_piece {
                None => post.board.cells@ == pre.board.cells@ && post.score == pre.score,
                Some(p) => {
                    let d = drop_distance(pre.board.cells@, p.cells@, p.pos as int);
                    &&& post.score == pre.score + d
                    &&& post.board.cells@ == merged(pre.board.cells@, p.cells@, p.pos + d)
                },
            }
        },
    }
}

/// Clearing the full rows and scoring them leads from `pre` to `post`.
pub open spec fn cleared_scored(pre: Game, post: Game) -> bool {
    let n = count_white(pre.board.cells@);
    &&& post.board.cells@ == cleared(pre.board.cells@)
    &&& post.score == pre.score + line_points(n) * (level_of(pre.lines) + 1)
    &&& post.lines == pre.lines + n
    &&& post.board.curr_piece == pre.board.curr_piece
    &&& post.board.color_blind == pre.board.color_blind
    &&& post.dealer == pre.dealer
}

/// Bringing in the next piece (unless the entry row is taken) leads from
/// `pre` to `post`.
pub open spec fn spawn_result(pre: Game, post: Game) -> bool {
    if pre.board.cells@[MAX_PIECE_SIZE - 1] == spec_black() {
        &&& post.board.curr_piece == pre.upcoming()
        &&& post.upcoming() matches Some(p) && is_fresh_piece(p)
        &&& post.board.cells@ == pre.board.cells@
        &&& post.board.color_blind == pre.board.color_blind
        &&& post.lines == pre.lines
        &&& post.score == pre.score
    } else {
        post == pre
    }
}

impl Game {
    /// A game as play leaves it: 32 rows whose landed cells form one stack
    /// at the bottom, a fresh piece waiting, and either a falling piece of
    /// one to three primaries resting inside the board over no full row, or
    /// no falling piece and at most three full rows (those the last piece
    /// made).
    pub open spec fn playable(self) -> bool {
        let cells = self.board.cells@;
        &&& cells.len() == BOARD_HEIGHT
        &&& stacked(cells)
        &&& self.upcoming() matches Some(n) && is_fresh_piece(n)
        &&& match self.board.curr_piece {
            Some(p) => {
                &&& is_piece_shape(p.cells@)
                &&& rests_at(cells, p.cells@, p.pos as int)
                &&& no_white(cells)
            },
            None => count_white(cells) <= MAX_PIECE_SIZE,
        }
    }

    /// The piece that comes in next.
    pub open spec fn upcoming(self) -> Option<Piece> {
        self.dealer.next()
    }

    /// A new game: an empty board of 32 rows, no falling piece, a random
    /// next piece, nothing scored.
    pub fn new() -> (g: Self)
        ensures
            g.lines == 0,
            g.score == 0,
            g.board.curr_piece is None,
            g.board.cells@ == blank_rows(BOARD_HEIGHT as nat),
            !g.board.color_blind,
            g.upcoming() matches Some(p) && is_fresh_piece(p),
            g.playable(),
            g.upcoming() matches Some(p) && dealt_from(p, g.dealer.next_draws()),
    {
        let mut rng = seeded_rng();
        let cells = vec![black(); BOARD_HEIGHT as usize];
        assert(cells@ =~= blank_rows(BOARD_HEIGHT as nat));
        proof {
            lemma_white_window(cells@, 0, 0);
        }
        let board = Board { curr_piece: None, cells, color_blind: false };
        let (next_piece, draws) = rand_piece(&mut rng);
        Game {
            lines: 0,
            score: 0,
            board,
            dealer: Dealer { next_piece: Some(next_piece), rng, next_draws: draws },
        }
    }

    /// Switches colour-blind mode on or off.
    pub fn toggle_colorblind(&mut self)
        ensures
            final(self).board.color_blind == !old(self).board.color_blind,
            final(self).board.cells@ == old(self).board.cells@,
            final(self).board.curr_piece == old(self).board.curr_piece,
            final(self).lines == old(self).lines,
            final(self).score == old(self).score,
            final(self).dealer == old(self).dealer,
    {
        self.board.color_blind = !self.board.color_blind;
    }

    /// The level: one more for every ten cleared rows.
    pub fn level(&self) -> (level: u32)
        ensures
            level == level_of(self.lines),
    {
        self.lines / 10
    }

    /// The time a piece waits on each row, in milliseconds; it shortens as
    /// the level rises.
    pub fn step_delay_ms(&self) -> (ms: u64)
        ensures
            ms == delay_ms(self.lines),
    {
        FRAME_MS * frames_per_square(self.level())
    }

    /// The time a piece waits on each row.
    pub fn step_delay(&self) -> (d: Duration)
        ensures
            d == duration_of_millis(delay_ms(self.lines)),
    {
        millis(self.step_delay_ms())
    }

    /// Brings the next piece onto the board and picks a new next piece.
    pub fn new_piece(&mut self)
        ensures
            final(self).board.curr_piece == old(self).upcoming(),
            final(self).upcoming() matches Some(p) && is_fresh_piece(p) && dealt_from(
                p,
                final(self).dealer.next_draws(),
            ),
            final(self).board.cells@ == old(self).board.cells@,
            final(self).board.color_blind == old(self).board.color_blind,
            final(self).lines == old(self).lines,
            final(self).score == old(self).score,
    {
        self.board.curr_piece = self.dealer.next_piece.take();
        let (next_piece, draws) = rand_piece(&mut self.dealer.rng);
        self.dealer.next_piece = Some(next_piece);
        self.dealer.next_draws = draws;
    }

    /// The game is lost once the row where pieces enter is no longer empty.
    pub fn lost(&self) -> (lost: bool)
        requires
            self.board.cells@.len() >= MAX_PIECE_SIZE,
        ensures
            lost == (self.board.cells@[MAX_PIECE_SIZE - 1] != spec_black()),
    {
        self.board.cells[MAX_PIECE_SIZE - 1] != black()
    }

    /// Brings in the next piece unless the game is lost (the row where
    /// pieces enter is taken). Returns whether a piece came in.
    pub fn spawn_next(&mut self) -> (spawned: bool)
        requires
            old(self).board.cells@.len() >= MAX_PIECE_SIZE,
        ensures
            spawned == (old(self).board.cells@[MAX_PIECE_SIZE - 1] == spec_black()),
            spawned ==> final(self).board.curr_piece == old(self).upcoming(),
            spawned ==> (final(self).upcoming() matches Some(p) && is_fresh_piece(p) && dealt_from(
                p,
                final(self).dealer.next_draws(),
            )),
            !spawned ==> *final(self) == *old(self),
            final(self).board.cells@ == old(self).board.cells@,
            final(self).board.color_blind == old(self).board.color_blind,
            final(self).lines == old(self).lines,
            final(self).score == old(self).score,
            spawn_result(*old(self), *final(self)),
            old(self).playable() && old(self).board.curr_piece is None && no_white(
                old(self).board.cells@,
            ) && spawned ==> final(self).playable(),
    {
        if self.lost() {
            return false;
        }
        let ghost pre = *self;
        self.new_piece();
        proof {
            if pre.playable() && pre.board.curr_piece is None && no_white(pre.board.cells@) {
                let cells = pre.board.cells@;
                let p = pre.upcoming()->0;
                assert forall|i: int| 0 <= i < p.cells@.len() implies !spec_collides(
                    cells[0 + i],
                    #[trigger] p.cells@[i],
                ) by {
                    if i < 2 {
                        assert(cells[i] != spec_black() ==> cells[2] != spec_black());
                    }
                }
            }
        }
        true
    }

    /// What the info panel shows: the next piece, the cleared rows, the
    /// level and the score.
    pub fn panel(&self) -> (p: Panel)
        ensures
            p.next_cells@.len() == 5,
            forall|i: int| 0 <= i < 5 ==> #[trigger] p.next_cells@[i] == preview_cell(self.upcoming(), i),
            p.lines@ == en_grouped(self.lines as nat),
            p.level == level_of(self.lines),
            p.score@ == en_grouped(self.score as nat),
    {
        let mut next_cells: Vec<Color> = Vec::new();
        let mut i: usize = 0;
        while i < 5
            invariant
                i <= 5,
                next_cells@.len() == i,
                forall|j: int| 0 <= j < i ==> #[trigger] next_cells@[j] == preview_cell(self.upcoming(), j),
            decreases 5 - i,
        {
            let cell = match &self.dealer.next_piece {
                Some(piece) => if i < piece.cells.len() {
                    piece.cells[i]
                } else {
                    black()
                },
                None => black(),
            };
            next_cells.push(cell);
            i += 1;
        }
        Panel {
            next_cells,
            lines: grouped(self.lines),
            level: self.level(),
            score: grouped(self.score),
        }
    }

    /// Whether `clear_and_score` can run on this game.
    pub fn can_clear_and_score(&self) -> (ok: bool)
        ensures
            ok == clearable(self.board, self.lines, self.score),
    {
        let n = full_rows(&self.board.cells);
        if n > 4 {
            return false;
        }
        let bonus: u64 = self.level() as u64 + 1;
        let points: u64 = if n == 0 {
            0
        } else {
            points_for_lines(n as u32) as u64
        };
        assert(points * bonus <= 1200 * (u32::MAX as u64 / 10 + 1)) by (nonlinear_arith)
            requires
                points <= 1200,
                bonus <= u32::MAX as u64 / 10 + 1,
        ;
        self.score as u64 + points * bonus <= u32::MAX as u64 && self.lines as u64 + n as u64
            <= u32::MAX as u64
    }

    /// Removes the full rows and scores them: 40, 100, 400 or 1200 points
    /// for one to four rows, times one more than the level before the
    /// rows are counted. Returns the number of rows removed.
    pub fn clear_and_score(&mut self) -> (n: u32)
        requires
            clearable(old(self).board, old(self).lines, old(self).score),
        ensures
            n == count_white(old(self).board.cells@),
            final(self).board.cells@ == cleared(old(self).board.cells@),
            final(self).score == old(self).score + line_points(n as nat) * (level_of(
                old(self).lines,
            ) + 1),
            final(self).lines == old(self).lines + n,
            final(self).board.curr_piece == old(self).board.curr_piece,
            final(self).board.color_blind == old(self).board.color_blind,
            final(self).dealer == old(self).dealer,
            cleared_scored(*old(self), *final(self)),
            old(self).playable() ==> final(self).playable(),
    {
        proof {
            lemma_clear_keeps_play(self.board.cells@);
        }
        let lines_cleared = self.board.clear_lines();
        if lines_cleared > 0 {
            let mult = points_for_lines(lines_cleared);
            let bonus = self.level() + 1;
            assert(mult * bonus <= u32::MAX);
            self.score = self.score + mult * bonus;
            self.lines = self.lines + lines_cleared;
        } else {
            assert(line_points(0) * (level_of(self.lines) + 1) == 0);
        }
        lines_cleared
    }

    /// Whether `tick` can run on this game.
    pub fn can_tick(&self) -> (ok: bool)
        ensures
            ok == self.board.lands_safely(),
    {
        match &self.board.curr_piece {
            Some(p) => piece_lands_safely(&self.board.cells, &p.cells, p.pos),
            None => true,
        }
    }

    /// One step of gravity: the falling piece moves down a row if it can,
    /// and lands otherwise. Returns whether it landed (the board must then
    /// be shown again and a new piece brought in).
    pub fn tick(&mut self) -> (landed: bool)
        requires
            old(self).board.lands_safely(),
        ensures
            final(self).board.color_blind == old(self).board.color_blind,
            final(self).lines == old(self).lines,
            final(self).score == old(self).score,
            final(self).dealer == old(self).dealer,
            match old(self).board.curr_piece {
                None => landed && final(self).board.curr_piece is None && final(self).board.cells@
                    == old(self).board.cells@,
                Some(p) => if can_descend(old(self).board.cells@, p.cells@, p.pos as int) {
                    &&& !landed
                    &&& final(self).board.cells@ == old(self).board.cells@
                    &&& final(self).board.curr_piece matches Some(q)
                    &&& q.cells@ == p.cells@
                    &&& q.pos == p.pos + 1
                } else {
                    &&& landed
                    &&& final(self).board.curr_piece is None
                    &&& final(self).board.cells@ == merged(
                        old(self).board.cells@,
                        p.cells@,
                        p.pos as int,
                    )
                },
            },
            ticked(*old(self), *final(self)),
            old(self).playable() ==> final(self).playable(),
    {
        let ghost pre = *self;
        if !self.board.drop() {
            self.board.merge_piece();
            proof {
                if pre.playable() && pre.board.curr_piece is Some {
                    let p = pre.board.curr_piece->0;
                    lemma_landed_keeps_play(pre.board.cells@, p.cells@, p.pos as int);
                }
            }
            true
        } else {
            proof {
                if pre.playable() {
                    let p = pre.board.curr_piece->0;
                    lemma_descend_keeps_rest(pre.board.cells@, p.cells@, p.pos as int);
                }
            }
            false
        }
    }

    /// Whether `apply` can handle `input` in this game.
    pub fn can_apply(&self, input: Input) -> (ok: bool)
        ensures
            ok == accepts(self.board, self.score, input),
    {
        match input {
            Input::Rotate => match &self.board.curr_piece {
                Some(p) => p.cells.len() > 0,
                None => true,
            },
            Input::HardDrop => match &self.board.curr_piece {
                Some(p) => {
                    let safe = piece_lands_safely(&self.board.cells, &p.cells, p.pos);
                    let distance = landing_distance(&self.board.cells, &p.cells, p.pos);
                    safe && distance as u64 <= (u32::MAX - self.score) as u64
                },
                None => true,
            },
            _ => true,
        }
    }

    /// Handles one input: turning the piece, switching colour-blind mode,
    /// dropping the piece (one point for each row it falls), or quitting.
    pub fn apply(&mut self, input: Input) -> (reaction: Reaction)
        requires
            accepts(old(self).board, old(self).score, input),
        ensures
            final(self).lines == old(self).lines,
            final(self).dealer == old(self).dealer,
            match input {
                Input::Quit => reaction == Reaction::Quit && *final(self) == *old(self),
                Input::Ignored => reaction == Reaction::Continue && *final(self) == *old(self),
                Input::ToggleColorBlind => {
                    &&& reaction == Reaction::Continue
                    &&& final(self).board.color_blind == !old(self).board.color_blind
                    &&& final(self).board.cells@ == old(self).board.cells@
                    &&& final(self).board.curr_piece == old(self).board.curr_piece
                    &&& final(self).score == old(self).score
                },
                Input::Rotate => {
                    &&& reaction == Reaction::Continue
                    &&& final(self).board.color_blind == old(self).board.color_blind
                    &&& final(self).board.cells@ == old(self).board.cells@
                    &&& final(self).score == old(self).score
                    &&& match old(self).board.curr_piece {
                        None => final(self).board.curr_piece is None,
                        Some(p) => final(self).board.curr_piece matches Some(q) && q.pos == p.pos
                            && q.cells@ == rotated(p.cells@),
                    }
                },
                Input::HardDrop => {
                    &&& reaction == Reaction::Landed
                    &&& final(self).board.color_blind == old(self).board.color_blind
                    &&& final(self).board.curr_piece is None
                    &&& match old(self).board.curr_piece {
                        None => final(self).board.cells@ == old(self).board.cells@
                            && final(self).score == old(self).score,
                        Some(p) => {
                            let d = drop_distance(old(self).board.cells@, p.cells@, p.pos as int);
                            &&& final(self).score == old(self).score + d
                            &&& final(self).board.cells@ == merged(
                                old(self).board.cells@,
                                p.cells@,
                                p.pos + d,
                            )
                        },
                    }
                },
            },
            played(*old(self), input, *final(self)),
            old(self).playable() && (input == Input::Rotate ==> rotation_rests(old(self).board))
                ==> final(self).playable(),
    {
        match input {
            Input::Quit => Reaction::Quit,
            Input::Ignored => Reaction::Continue,
            Input::ToggleColorBlind => {
                self.toggle_colorblind();
                Reaction::Continue
            },
            Input::Rotate => {
                let ghost pre = *self;
                match self.board.curr_piece.take() {
                    Some(mut piece) => {
                        piece.rotate();
                        self.board.curr_piece = Some(piece);
                    },
                    None => {},
                }
                proof {
                    if pre.playable() && pre.board.curr_piece is Some {
                        let c = pre.board.curr_piece->0.cells@;
                        assert forall|i: int| 0 <= i < c.len() implies is_piece_color(
                            #[trigger] rotated(c)[i],
                        ) by {
                            if i < c.len() - 1 {
                                assert(rotated(c)[i] == c[i + 1]);
                            } else {
                                assert(rotated(c)[i] == c[0]);
                            }
                        }
                    }
                }
                Reaction::Continue
            },
            Input::HardDrop => {
                self.hard_drop();
                Reaction::Landed
            },
        }
    }

    /// Lets the falling piece fall as far as it can, a point for each row,
    /// and lands it.
    fn hard_drop(&mut self)
        requires
            accepts(old(self).board, old(self).score, Input::HardDrop),
        ensures
            final(self).lines == old(self).lines,
            final(self).dealer == old(self).dealer,
            final(self).board.color_blind == old(self).board.color_blind,
            final(self).board.curr_piece is None,
            match old(self).board.curr_piece {
                None => final(self).board.cells@ == old(self).board.cells@ && final(self).score
                    == old(self).score,
                Some(p) => {
                    let d = drop_distance(old(self).board.cells@, p.cells@, p.pos as int);
                    &&& final(self).score == old(self).score + d
                    &&& final(self).board.cells@ == merged(
                        old(self).board.cells@,
                        p.cells@,
                        p.pos + d,
                    )
                },
            },
            old(self).playable() ==> final(self).playable(),
    {
        let ghost start = *self;
        match self.board.curr_piece {
            None => {
                self.board.merge_piece();
                return;
            },
            Some(_) => {},
        }
        let ghost p = start.board.curr_piece->0;
        let ghost cells = start.board.cells@;
        loop
            invariant_except_break
                self.board.curr_piece matches Some(q) && q.cells@ == p.cells@ && p.pos <= q.pos
                    && self.score == start.score + (q.pos - p.pos) && drop_distance(
                    cells,
                    p.cells@,
                    p.pos as int,
                ) == (q.pos - p.pos) + drop_distance(cells, p.cells@, q.pos as int) && (
                can_descend(cells, p.cells@, q.pos as int) || can_merge(
                    cells,
                    p.cells@,
                    q.pos as int,
                )),
                start.score + drop_distance(cells, p.cells@, p.pos as int) <= u32::MAX,
            invariant
                self.board.cells@ == cells,
                self.board.color_blind == start.board.color_blind,
                self.lines == start.lines,
                self.dealer == start.dealer,
            ensures
                self.board.curr_piece matches Some(q) && q.cells@ == p.cells@ && q.pos == p.pos
                    + drop_distance(cells, p.cells@, p.pos as int) && self.score == start.score
                    + drop_distance(cells, p.cells@, p.pos as int) && can_merge(
                    cells,
                    p.cells@,
                    q.pos as int,
                ),
            decreases cells.len() - self.board.curr_piece->0.pos,
        {
            let ghost before = self.board.curr_piece->0.pos;
            if !self.board.drop() {
                break;
            }
            proof {
                lemma_descend_then_merge(cells, p.cells@, before as int);
            }
            self.score = self.score + 1;
        }
        self.board.merge_piece();
        proof {
            if start.playable() {
                lemma_landing_keeps_rest(cells, p.cells@, p.pos as int);
                lemma_landed_keeps_play(
                    cells,
                    p.cells@,
                    p.pos + drop_distance(cells, p.cells@, p.pos as int),
                );
            }
        }
    }
}

} // verus!
