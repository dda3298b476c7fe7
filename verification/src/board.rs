//! The playing field: a single column of coloured cells, and the piece that
//! is falling down it.
use vstd::prelude::*;
use crate::display::{blend, blendable, black, collides, spec_black, spec_blend, spec_collides, spec_white, white, Color};

verus! {

/// A falling piece: a short stack of colours whose top cell is at row `pos`.
#[derive(Clone, Debug)]
pub struct Piece {
    pub cells: Vec<Color>,
    pub pos: usize,
}

/// The column of landed colours, with the piece currently falling, if any.
pub struct Board {
    pub curr_piece: Option<Piece>,
    pub cells: Vec<Color>,
    pub color_blind: bool,
}

/// A stack of colours turned by one: the top colour moves to the bottom.
pub open spec fn rotated(s: Seq<Color>) -> Seq<Color> {
    s.subrange(1, s.len() as int).push(s[0])
}

impl Piece {
    /// The piece occupies `row`.
    pub open spec fn covers(self, row: int) -> bool {
        self.pos <= row < self.pos + self.cells@.len()
    }

    /// Turns the piece: its top colour moves to the bottom.
    pub fn rotate(&mut self)
        requires
            old(self).cells@.len() > 0,
        ensures
            final(self).cells@ == rotated(old(self).cells@),
            final(self).pos == old(self).pos,
    {
        let first = self.cells.remove(0);
        self.cells.push(first);
        assert(self.cells@ =~= rotated(old(self).cells@));
    }

    /// Whether the piece occupies `row`.
    fn in_piece(&self, row: usize) -> (res: bool)
        ensures
            res == self.covers(row as int),
    {
        row >= self.pos && row - self.pos < self.cells.len()
    }
}

/// A piece of colours `piece` whose top is at row `pos` can move one row
/// down: it stays inside the column and none of its colours collides with
/// the colour one row below it.
pub open spec fn can_descend(cells: Seq<Color>, piece: Seq<Color>, pos: int) -> bool {
    &&& pos + piece.len() < cells.len()
    &&& forall|i: int| 0 <= i < piece.len() ==> !spec_collides(cells[pos + i + 1], #[trigger] piece[i])
}

/// A piece at row `pos` lies inside the column and each of its colours can
/// be mixed into the cell it covers.
pub open spec fn can_merge(cells: Seq<Color>, piece: Seq<Color>, pos: int) -> bool {
    &&& 0 <= pos
    &&& pos + piece.len() <= cells.len()
    &&& forall|i: int| 0 <= i < piece.len() ==> blendable(cells[pos + i], #[trigger] piece[i])
}

/// The column after a piece at row `pos` has landed: each covered cell
/// becomes the mix of its colour and the piece's, all others stay.
pub open spec fn merged(cells: Seq<Color>, piece: Seq<Color>, pos: int) -> Seq<Color> {
    Seq::new(
        cells.len(),
        |j: int|
            if pos <= j < pos + piece.len() {
                spec_blend(cells[j], piece[j - pos])
            } else {
                cells[j]
            },
    )
}

/// A piece at row `pos` lies inside the column and none of its colours
/// collides with the colour under it.
pub open spec fn rests_at(cells: Seq<Color>, piece: Seq<Color>, pos: int) -> bool {
    &&& 0 <= pos
    &&& pos + piece.len() <= cells.len()
    &&& forall|i: int| 0 <= i < piece.len() ==> !spec_collides(cells[pos + i], #[trigger] piece[i])
}

/// The landed cells form one stack at the bottom: below a non-empty cell
/// every cell is non-empty.
pub open spec fn stacked(s: Seq<Color>) -> bool {
    forall|i: int, j: int|
        #![trigger s[i], s[j]]
        0 <= i < j < s.len() && s[i] != spec_black() ==> s[j] != spec_black()
}

/// No row of the column is full.
pub open spec fn no_white(s: Seq<Color>) -> bool {
    forall|i: int| 0 <= i < s.len() ==> #[trigger] s[i] != spec_white()
}

/// How many rows a piece at row `pos` falls before it comes to rest.
pub open spec fn drop_distance(cells: Seq<Color>, piece: Seq<Color>, pos: int) -> nat
    decreases cells.len() - pos,
{
    if can_descend(cells, piece, pos) {
        1 + drop_distance(cells, piece, pos + 1)
    } else {
        0
    }
}

/// A board seen as its column and its falling piece (colours and top row).
pub type FallState = (Seq<Color>, Option<(Seq<Color>, int)>);

/// One gravity tick: the piece moves down a row if it can, and otherwise
/// lands, mixing its colours into the column; without a piece nothing
/// changes.
pub open spec fn tick_state(s: FallState) -> FallState {
    match s.1 {
        None => s,
        Some((piece, pos)) => if can_descend(s.0, piece, pos) {
            (s.0, Some((piece, pos + 1)))
        } else {
            (merged(s.0, piece, pos), None)
        },
    }
}

/// `k` gravity ticks in a row.
pub open spec fn ticks(s: FallState, k: nat) -> FallState
    decreases k,
{
    if k == 0 {
        s
    } else {
        tick_state(ticks(s, (k - 1) as nat))
    }
}

/// A cell that stays when full rows are cleared.
pub open spec fn is_kept(c: Color) -> bool {
    c != spec_white()
}

/// The cells of a column that are not full, in order.
pub open spec fn kept(s: Seq<Color>) -> Seq<Color> {
    s.filter(|c: Color| is_kept(c))
}

/// The number of full (white) rows in a column.
pub open spec fn count_white(s: Seq<Color>) -> nat {
    (s.len() - kept(s).len()) as nat
}

/// `n` empty rows.
pub open spec fn blank_rows(n: nat) -> Seq<Color> {
    Seq::new(n, |i: int| spec_black())
}

/// A column after its full rows are removed: everything else slides down,
/// in order, and empty rows fill in at the top.
pub open spec fn cleared(s: Seq<Color>) -> Seq<Color> {
    blank_rows(count_white(s)) + kept(s)
}

/// Keeping cells, one more cell at the bottom.
pub proof fn lemma_kept_push(s: Seq<Color>, x: Color)
    ensures
        kept(s.push(x)) == (if is_kept(x) { kept(s).push(x) } else { kept(s) }),
        kept(s).len() <= s.len(),
{
    reveal_with_fuel(Seq::filter, 1);
    assert(s.push(x).drop_last() =~= s);
    s.lemma_filter_len(|c: Color| is_kept(c));
}

/// Clearing a column with one more cell at the bottom.
pub proof fn lemma_cleared_push(s: Seq<Color>, x: Color)
    ensures
        cleared(s.push(x)) == (if x == spec_white() {
            seq![spec_black()] + cleared(s)
        } else {
            cleared(s).push(x)
        }),
        count_white(s.push(x)) == count_white(s) + (if x == spec_white() { 1nat } else { 0nat }),
{
    lemma_kept_push(s, x);
    if x == spec_white() {
        assert(blank_rows(count_white(s) + 1) =~= seq![spec_black()] + blank_rows(count_white(s)));
        assert(cleared(s.push(x)) =~= seq![spec_black()] + cleared(s));
    } else {
        assert(cleared(s.push(x)) =~= cleared(s).push(x));
    }
}

/// A prefix of a column has no more full rows than the column.
pub proof fn lemma_count_white_prefix(s: Seq<Color>, p: int)
    requires
        0 <= p <= s.len(),
    ensures
        count_white(s.take(p)) <= count_white(s),
    decreases s.len() - p,
{
    if p < s.len() {
        lemma_count_white_prefix(s, p + 1);
        assert(s.take(p + 1) =~= s.take(p).push(s[p]));
        lemma_cleared_push(s.take(p), s[p]);
    } else {
        assert(s.take(p) =~= s);
    }
}

/// Whether a piece of colours `piece` at row `pos` can move one row down.
pub(crate) fn descends_at(cells: &Vec<Color>, piece: &Vec<Color>, pos: usize) -> (res: bool)
    ensures
        res == can_descend(cells@, piece@, pos as int),
{
    let len = cells.len();
    let piece_len = piece.len();
    if pos >= len || piece_len >= len - pos {
        return false;
    }
    let mut i: usize = 0;
    while i < piece_len
        invariant
            i <= piece_len,
            piece_len == piece@.len(),
            len == cells@.len(),
            pos + piece_len < len,
            forall|k: int| 0 <= k < i ==> !spec_collides(cells@[pos + k + 1], #[trigger] piece@[k]),
        decreases piece_len - i,
    {
        if collides(cells[pos + i + 1], piece[i]) {
            return false;
        }
        i += 1;
    }
    true
}

/// Whether a piece of colours `piece` at row `pos` can be mixed into the
/// column where it is.
pub(crate) fn merges_at(cells: &Vec<Color>, piece: &Vec<Color>, pos: usize) -> (res: bool)
    ensures
        res == can_merge(cells@, piece@, pos as int),
{
    let len = cells.len();
    let piece_len = piece.len();
    if pos > len || piece_len > len - pos {
        return false;
    }
    let mut i: usize = 0;
    while i < piece_len
        invariant
            i <= piece_len,
            piece_len == piece@.len(),
            len == cells@.len(),
            pos + piece_len <= len,
            forall|k: int| 0 <= k < i ==> blendable(cells@[pos + k], #[trigger] piece@[k]),
        decreases piece_len - i,
    {
        let a = cells[pos + i];
        let b = piece[i];
        if a.r as u16 + b.r as u16 > 255 || a.g as u16 + b.g as u16 > 255 || a.b as u16
            + b.b as u16 > 255 {
            return false;
        }
        i += 1;
    }
    true
}

/// Whether a piece at row `pos` can still fall or can be mixed in there.
pub(crate) fn piece_lands_safely(cells: &Vec<Color>, piece: &Vec<Color>, pos: usize) -> (res: bool)
    ensures
        res == (can_descend(cells@, piece@, pos as int) || can_merge(cells@, piece@, pos as int)),
{
    descends_at(cells, piece, pos) || merges_at(cells, piece, pos)
}

/// How many rows a piece at row `pos` falls before it comes to rest.
pub(crate) fn landing_distance(cells: &Vec<Color>, piece: &Vec<Color>, pos: usize) -> (d: usize)
    ensures
        d == drop_distance(cells@, piece@, pos as int),
{
    let len = cells.len();
    let mut p = pos;
    while descends_at(cells, piece, p)
        invariant
            len == cells@.len(),
            pos <= p,
            p > pos ==> p <= len,
            drop_distance(cells@, piece@, pos as int) == (p - pos) + drop_distance(
                cells@,
                piece@,
                p as int,
            ),
        decreases cells@.len() - p,
    {
        p = p + 1;
    }
    p - pos
}

/// The number of full rows in a column.
pub fn full_rows(cells: &Vec<Color>) -> (n: usize)
    ensures
        n == count_white(cells@),
{
    let len = cells.len();
    let mut n: usize = 0;
    let mut i: usize = 0;
    assert(cells@.take(0) =~= Seq::<Color>::empty());
    assert(kept(Seq::<Color>::empty()) =~= Seq::<Color>::empty()) by {
        reveal_with_fuel(Seq::filter, 1);
    }
    while i < len
        invariant
            i <= len,
            len == cells@.len(),
            n <= i,
            n == count_white(cells@.take(i as int)),
        decreases len - i,
    {
        proof {
            assert(cells@.take(i + 1) =~= cells@.take(i as int).push(cells@[i as int]));
            lemma_cleared_push(cells@.take(i as int), cells@[i as int]);
        }
        if cells[i] == white() {
            n += 1;
        }
        i += 1;
    }
    assert(cells@.take(len as int) =~= cells@);
    n
}

impl Board {
    /// Moves the falling piece one row down if it can go there; returns
    /// whether it moved. Without a falling piece nothing happens.
    pub fn drop(&mut self) -> (moved: bool)
        ensures
            final(self).cells@ == old(self).cells@,
            final(self).color_blind == old(self).color_blind,
            match old(self).curr_piece {
                None => !moved && final(self).curr_piece is None,
                Some(p) => {
                    &&& moved == can_descend(old(self).cells@, p.cells@, p.pos as int)
                    &&& final(self).curr_piece matches Some(q)
                    &&& q.cells@ == p.cells@
                    &&& q.pos == (if moved { p.pos + 1 } else { p.pos as int })
                },
            },
    {
        let mut piece = match self.curr_piece.take() {
            Some(p) => p,
            None => return false,
        };
        let moved = descends_at(&self.cells, &piece.cells, piece.pos);
        let len = self.cells.len();
        if moved {
            assert(piece.pos < len);
            piece.pos = piece.pos + 1;
        }
        self.curr_piece = Some(piece);
        moved
    }

    /// Lands the falling piece: its colours are mixed into the cells it
    /// covers and the board is left without a falling piece.
    pub fn merge_piece(&mut self)
        requires
            old(self).curr_piece matches Some(p) ==> can_merge(
                old(self).cells@,
                p.cells@,
                p.pos as int,
            ),
        ensures
            final(self).curr_piece is None,
            final(self).color_blind == old(self).color_blind,
            final(self).cells@ == match old(self).curr_piece {
                None => old(self).cells@,
                Some(p) => merged(old(self).cells@, p.cells@, p.pos as int),
            },
            final(self).cells@.len() == old(self).cells@.len(),
            match old(self).curr_piece {
                None => true,
                Some(p) => {
                    &&& forall|i: int|
                        0 <= i < p.cells@.len() ==> {
                            &&& final(self).cells@[p.pos + i].r == old(self).cells@[p.pos + i].r
                                + (#[trigger] p.cells@[i]).r
                            &&& final(self).cells@[p.pos + i].g == old(self).cells@[p.pos + i].g
                                + p.cells@[i].g
                            &&& final(self).cells@[p.pos + i].b == old(self).cells@[p.pos + i].b
                                + p.cells@[i].b
                        }
                    &&& forall|j: int|
                        0 <= j < old(self).cells@.len() && !(p.pos <= j < p.pos + p.cells@.len())
                            ==> #[trigger] final(self).cells@[j] == old(self).cells@[j]
                },
            },
    {
        let piece = match self.curr_piece.take() {
            Some(p) => p,
            None => return,
        };
        let ghost start = self.cells@;
        let pos = piece.pos;
        let piece_len = piece.cells.len();
        let len = self.cells.len();
        let mut offset: usize = 0;
        while offset < piece_len
            invariant
                offset <= piece_len,
                piece_len == piece.cells@.len(),
                pos == piece.pos,
                can_merge(start, piece.cells@, pos as int),
                self.cells@.len() == start.len(),
                len == start.len(),
                self.curr_piece is None,
                self.color_blind == old(self).color_blind,
                forall|j: int|
                    0 <= j < start.len() ==> #[trigger] self.cells@[j] == (if pos <= j < pos + offset {
                        spec_blend(start[j], piece.cells@[j - pos])
                    } else {
                        start[j]
                    }),
            decreases piece_len - offset,
        {
            let here = self.cells[pos + offset];
            let color = piece.cells[offset];
            assert(blendable(start[pos + offset], piece.cells@[offset as int]));
            self.cells.set(pos + offset, blend(here, color));
            offset += 1;
        }
        assert(self.cells@ =~= merged(start, piece.cells@, pos as int));
    }

    /// Removes every full (white) row: the rows above slide down and empty
    /// rows appear at the top. Returns how many rows were removed.
    pub fn clear_lines(&mut self) -> (count: u32)
        requires
            count_white(old(self).cells@) <= u32::MAX,
        ensures
            count == count_white(old(self).cells@),
            final(self).cells@ == cleared(old(self).cells@),
            final(self).curr_piece == old(self).curr_piece,
            final(self).color_blind == old(self).color_blind,
    {
        let ghost start = self.cells@;
        let len = self.cells.len();
        let mut cnt: u32 = 0;
        let mut pos: usize = 0;
        assert(start.take(0) =~= Seq::<Color>::empty());
        assert(cleared(Seq::<Color>::empty()) =~= Seq::<Color>::empty()) by {
            reveal_with_fuel(Seq::filter, 1);
        }
        while pos < len
            invariant
                pos <= len,
                len == start.len(),
                self.cells@.len() == len,
                self.curr_piece == old(self).curr_piece,
                self.color_blind == old(self).color_blind,
                count_white(start) <= u32::MAX,
                cnt == count_white(start.take(pos as int)),
                forall|j: int| 0 <= j < pos ==> #[trigger] self.cells@[j] == cleared(start.take(pos as int))[j],
                forall|j: int| pos <= j < len ==> #[trigger] self.cells@[j] == start[j],
            decreases len - pos,
        {
            let ghost prefix = start.take(pos as int);
            proof {
                assert(start.take(pos + 1) =~= prefix.push(start[pos as int]));
                lemma_cleared_push(prefix, start[pos as int]);
                lemma_count_white_prefix(start, pos + 1);
            }
            if self.cells[pos] == white() {
                cnt = cnt + 1;
                let ghost before = self.cells@;
                self.cells.set(pos, black());
                let mut d: usize = pos;
                while d > 0
                    invariant
                        d <= pos < len,
                        self.cells@.len() == len,
                        self.curr_piece == old(self).curr_piece,
                        self.color_blind == old(self).color_blind,
                        before.len() == len,
                        forall|j: int| 0 <= j < d ==> #[trigger] self.cells@[j] == before[j],
                        self.cells@[d as int] == spec_black(),
                        forall|j: int| d < j <= pos ==> #[trigger] self.cells@[j] == before[j - 1],
                        forall|j: int| pos < j < len ==> #[trigger] self.cells@[j] == before[j],
                    decreases d,
                {
                    let above = self.cells[d - 1];
                    self.cells.set(d, above);
                    self.cells.set(d - 1, black());
                    d -= 1;
                }
                assert forall|j: int| 0 <= j < pos + 1 implies #[trigger] self.cells@[j] == cleared(
                    start.take(pos + 1),
                )[j] by {
                    if j > 0 {
                        assert(self.cells@[j] == before[j - 1]);
                    }
                }
            }
            pos += 1;
        }
        assert(start.take(len as int) =~= start);
        assert(self.cells@ =~= cleared(start));
        cnt
    }

    /// The board as its column and its falling piece.
    pub open spec fn fall_state(self) -> FallState {
        (
            self.cells@,
            match self.curr_piece {
                Some(p) => Some((p.cells@, p.pos as int)),
                None => None,
            },
        )
    }

    /// The falling piece, if any, can come to rest without a colour
    /// overflowing: it can still fall, or it can be mixed in where it is.
    pub open spec fn lands_safely(self) -> bool {
        match self.curr_piece {
            Some(p) => can_descend(self.cells@, p.cells@, p.pos as int) || can_merge(
                self.cells@,
                p.cells@,
                p.pos as int,
            ),
            None => true,
        }
    }

    /// The colour shown at `row`: the falling piece's colour mixed with the
    /// landed colour where the piece is, the landed colour elsewhere.
    pub open spec fn shown_color(self, row: int) -> Color {
        match self.curr_piece {
            Some(p) => if p.covers(row) {
                spec_blend(p.cells@[row - p.pos], self.cells@[row])
            } else {
                self.cells@[row]
            },
            None => self.cells@[row],
        }
    }

    /// Every row the falling piece covers can show the mix of both colours.
    pub open spec fn showable(self) -> bool {
        match self.curr_piece {
            Some(p) => forall|row: int|
                0 <= row < self.cells@.len() && p.covers(row) ==> blendable(
                    p.cells@[row - p.pos],
                    #[trigger] self.cells@[row],
                ),
            None => true,
        }
    }

    /// Whether `column_colors` can run on this board.
    pub fn can_show(&self) -> (ok: bool)
        ensures
            ok == self.showable(),
    {
        let piece = match &self.curr_piece {
            Some(p) => p,
            None => return true,
        };
        let len = self.cells.len();
        let pos = piece.pos;
        let piece_len = piece.cells.len();
        if pos >= len {
            return true;
        }
        let mut i: usize = 0;
        while i < piece_len && i < len - pos
            invariant
                pos < len,
                pos == piece.pos,
                len == self.cells@.len(),
                piece_len == piece.cells@.len(),
                self.curr_piece == Some(*piece),
                i <= piece_len,
                forall|row: int|
                    pos <= row < pos + i && row < len ==> blendable(
                        piece.cells@[row - pos],
                        #[trigger] self.cells@[row],
                    ),
            decreases piece_len - i,
        {
            let a = piece.cells[i];
            let b = self.cells[pos + i];
            if a.r as u16 + b.r as u16 > 255 || a.g as u16 + b.g as u16 > 255 || a.b as u16
                + b.b as u16 > 255 {
                assert(piece.covers(pos + i));
                return false;
            }
            i += 1;
        }
        true
    }

    /// The colours to draw for the column, top row first.
    pub fn column_colors(&self) -> (colors: Vec<Color>)
        requires
            self.showable(),
        ensures
            colors@.len() == self.cells@.len(),
            forall|row: int| 0 <= row < colors@.len() ==> #[trigger] colors@[row] == self.shown_color(row),
            forall|row: int|
                0 <= row < colors@.len() ==> match self.curr_piece {
                    Some(p) => if p.pos <= row < p.pos + p.cells@.len() {
                        &&& (#[trigger] colors@[row]).r == p.cells@[row - p.pos].r + self.cells@[row].r
                        &&& colors@[row].g == p.cells@[row - p.pos].g + self.cells@[row].g
                        &&& colors@[row].b == p.cells@[row - p.pos].b + self.cells@[row].b
                    } else {
                        colors@[row] == self.cells@[row]
                    },
                    None => colors@[row] == self.cells@[row],
                },
    {
        let len = self.cells.len();
        let mut colors: Vec<Color> = Vec::new();
        let mut row: usize = 0;
        while row < len
            invariant
                row <= len,
                len == self.cells@.len(),
                self.showable(),
                colors@.len() == row,
                forall|j: int| 0 <= j < row ==> #[trigger] colors@[j] == self.shown_color(j),
            decreases len - row,
        {
            let color = self.cells[row];
            let center = match &self.curr_piece {
                Some(piece) => if piece.in_piece(row) {
                    assert(blendable(piece.cells@[row - piece.pos], self.cells@[row as int]));
                    blend(piece.cells[row - piece.pos], color)
                } else {
                    color
                },
                None => color,
            };
            colors.push(center);
            row += 1;
        }
        colors
    }
}

} // verus!
