//! The board: a fixed 10x20 grid of cells, the collision oracle that tests a
//! mask against it, and line compaction.

use vstd::prelude::*;

use crate::piece::{Mask, PieceId, mask_cell};

verus! {

broadcast use vstd::array::group_array_axioms;

/// The board width in cells.
pub const GAME_WIDTH: usize = 10;

/// The board height in cells (rows grow downward: higher row index is
/// closer to the ground).
pub const GAME_HEIGHT: usize = 20;

/// One board cell: empty, or occupied by a locked piece of the given kind.
#[derive(Copy, Clone, PartialEq, Eq, Structural, Debug)]
pub enum Pixel {
    Empty,
    Full(PieceId),
}

impl Pixel {
    /// Whether the cell is unoccupied.
    pub fn is_empty(self) -> (r: bool)
        ensures
            r == (self is Empty),
    {
        match self {
            Pixel::Empty => true,
            Pixel::Full(_) => false,
        }
    }
}

/// 20 rows of 10 cells; `board[row][column]`, row 0 on top.
pub type Board = [[Pixel; 10]; 20];

/// The mathematical view of a board: a sequence of 20 rows of 10 cells.
pub open spec fn board_seq(b: Board) -> Seq<Seq<Pixel>> {
    b@.map_values(|r: [Pixel; 10]| r@)
}

/// Whether `(x, y)` lies on the board.
pub open spec fn in_bounds(x: int, y: int) -> bool {
    0 <= x < 10 && 0 <= y < 20
}

/// A cell that blocks a piece: outside the board, or occupied.
pub open spec fn cell_blocked(b: Seq<Seq<Pixel>>, x: int, y: int) -> bool {
    !in_bounds(x, y) || b[y][x] is Full
}

/// Whether the mask placed with its top-left corner at `(x, y)` hits the
/// border or an occupied cell: some occupied mask cell maps to a blocked
/// absolute cell.
pub open spec fn intersects_spec(m: Mask, x: int, y: int, b: Seq<Seq<Pixel>>) -> bool {
    exists|rx: int, ry: int|
        0 <= rx < 4 && 0 <= ry < 4 && mask_cell(m, rx, ry) && cell_blocked(b, x + rx, y + ry)
}

/// The collision oracle: true iff some occupied cell of `mask`, placed at
/// `pos`, lies outside the board or on an occupied cell. This is the single
/// source of truth for spawn validity, movement, rotation, ground detection
/// and hard-drop distance.
pub fn intersects_with(mask: &Mask, pos: (isize, isize), board: &Board) -> (r: bool)
    requires
        pos.0 + 3 <= isize::MAX,
        pos.1 + 3 <= isize::MAX,
    ensures
        r == intersects_spec(*mask, pos.0 as int, pos.1 as int, board_seq(*board)),
{
    let x = pos.0;
    let y = pos.1;
    let mut ry: usize = 0;
    while ry < 4
        invariant
            ry <= 4,
            pos.0 + 3 <= isize::MAX,
            pos.1 + 3 <= isize::MAX,
            x == pos.0,
            y == pos.1,
            forall|i: int, j: int|
                0 <= i < 4 && 0 <= j < ry ==> !(mask_cell(*mask, i, j) && cell_blocked(
                    board_seq(*board),
                    x + i,
                    y + j,
                )),
        decreases 4 - ry,
    {
        let mut rx: usize = 0;
        while rx < 4
            invariant
                ry < 4,
                rx <= 4,
                pos.0 + 3 <= isize::MAX,
                pos.1 + 3 <= isize::MAX,
                x == pos.0,
                y == pos.1,
                forall|i: int, j: int|
                    0 <= i < 4 && 0 <= j < ry ==> !(mask_cell(*mask, i, j) && cell_blocked(
                        board_seq(*board),
                        x + i,
                        y + j,
                    )),
                forall|i: int|
                    0 <= i < rx ==> !(mask_cell(*mask, i, ry as int) && cell_blocked(
                        board_seq(*board),
                        x + i,
                        y + ry,
                    )),
            decreases 4 - rx,
        {
            if mask[ry][rx] {
                let abs_x = x + rx as isize;
                let abs_y = y + ry as isize;
                if abs_x < 0 || abs_x >= 10 || abs_y < 0 || abs_y >= 20 {
                    assert(mask_cell(*mask, rx as int, ry as int) && cell_blocked(
                        board_seq(*board),
                        pos.0 + rx as int,
                        pos.1 + ry as int,
                    ));
                    return true;
                }
                let cell = board[abs_y as usize][abs_x as usize];
                if !cell.is_empty() {
                    assert(board_seq(*board)[abs_y as int][abs_x as int] is Full);
                    assert(mask_cell(*mask, rx as int, ry as int) && cell_blocked(
                        board_seq(*board),
                        pos.0 + rx as int,
                        pos.1 + ry as int,
                    ));
                    return true;
                }
            }
            rx += 1;
        }
        ry += 1;
    }
    false
}

/// A fully occupied row: every one of its 10 cells holds a locked piece.
pub open spec fn row_full(r: Seq<Pixel>) -> bool {
    forall|x: int| 0 <= x < 10 ==> r[x] is Full
}

/// The row with all 10 cells empty.
pub open spec fn empty_row() -> Seq<Pixel> {
    Seq::new(10, |x: int| Pixel::Empty)
}

/// The rows of a board that are not fully occupied, in their original order.
pub open spec fn kept_rows(b: Seq<Seq<Pixel>>) -> Seq<Seq<Pixel>>
    decreases b.len(),
{
    if b.len() == 0 {
        Seq::empty()
    } else if row_full(b.first()) {
        kept_rows(b.drop_first())
    } else {
        seq![b.first()] + kept_rows(b.drop_first())
    }
}

/// The number of fully occupied rows of a board.
pub open spec fn full_count(b: Seq<Seq<Pixel>>) -> int {
    b.len() - kept_rows(b).len()
}

/// The compacted board: the fully occupied rows are removed, every other row
/// keeps its order and is pushed toward the ground, and the vacated rows at
/// the top are left empty.
pub open spec fn compact_seq(b: Seq<Seq<Pixel>>) -> Seq<Seq<Pixel>> {
    Seq::new(full_count(b) as nat, |i: int| empty_row()) + kept_rows(b)
}

/// The board with no occupied cell at all.
pub open spec fn empty_board() -> Seq<Seq<Pixel>> {
    Seq::new(20, |y: int| empty_row())
}

pub proof fn lemma_kept_len(b: Seq<Seq<Pixel>>)
    ensures
        kept_rows(b).len() <= b.len(),
    decreases b.len(),
{
    if b.len() > 0 {
        lemma_kept_len(b.drop_first());
    }
}

pub proof fn lemma_kept_not_full(b: Seq<Seq<Pixel>>)
    ensures
        forall|i: int| 0 <= i < kept_rows(b).len() ==> !row_full(#[trigger] kept_rows(b)[i]),
    decreases b.len(),
{
    if b.len() > 0 {
        lemma_kept_not_full(b.drop_first());
        if !row_full(b.first()) {
            assert forall|i: int| 0 <= i < kept_rows(b).len() implies !row_full(
                #[trigger] kept_rows(b)[i],
            ) by {
                if i == 0 {
                    assert(kept_rows(b)[0] == b.first());
                } else {
                    assert(kept_rows(b)[i] == kept_rows(b.drop_first())[i - 1]);
                }
            }
        } else {
            assert(kept_rows(b) == kept_rows(b.drop_first()));
            assert forall|i: int| 0 <= i < kept_rows(b).len() implies !row_full(
                #[trigger] kept_rows(b)[i],
            ) by {
                assert(kept_rows(b)[i] == kept_rows(b.drop_first())[i]);
            }
        }
    }
}

pub proof fn lemma_kept_all(b: Seq<Seq<Pixel>>)
    requires
        forall|i: int| 0 <= i < b.len() ==> !row_full(#[trigger] b[i]),
    ensures
        kept_rows(b) == b,
    decreases b.len(),
{
    if b.len() > 0 {
        assert(!row_full(b[0]));
        lemma_kept_all(b.drop_first());
        assert(seq![b.first()] + b.drop_first() =~= b);
    }
}

/// The number of fully occupied rows, counted row by row.
pub open spec fn count_full(b: Seq<Seq<Pixel>>) -> int
    decreases b.len(),
{
    if b.len() == 0 {
        0
    } else {
        (if row_full(b.first()) {
            1int
        } else {
            0int
        }) + count_full(b.drop_first())
    }
}

/// `full_count` (defined through the kept rows) and `count_full` agree.
pub proof fn lemma_full_count_is_count_full(b: Seq<Seq<Pixel>>)
    ensures
        full_count(b) == count_full(b),
    decreases b.len(),
{
    if b.len() > 0 {
        lemma_full_count_is_count_full(b.drop_first());
    }
}

pub proof fn lemma_count_full_distributes(a: Seq<Seq<Pixel>>, b: Seq<Seq<Pixel>>)
    ensures
        count_full(a + b) == count_full(a) + count_full(b),
    decreases a.len(),
{
    if a.len() == 0 {
        assert(a + b =~= b);
    } else {
        assert((a + b).first() == a.first());
        assert((a + b).drop_first() =~= a.drop_first() + b);
        lemma_count_full_distributes(a.drop_first(), b);
    }
}

pub proof fn lemma_count_full_le_len(b: Seq<Seq<Pixel>>)
    ensures
        0 <= count_full(b) <= b.len(),
    decreases b.len(),
{
    if b.len() > 0 {
        lemma_count_full_le_len(b.drop_first());
    }
}

pub proof fn lemma_count_full_zero(b: Seq<Seq<Pixel>>)
    requires
        forall|i: int| 0 <= i < b.len() ==> !row_full(#[trigger] b[i]),
    ensures
        count_full(b) == 0,
    decreases b.len(),
{
    if b.len() > 0 {
        assert(!row_full(b[0]));
        assert(forall|i: int|
            0 <= i < b.drop_first().len() ==> b.drop_first()[i] == b[i + 1]);
        lemma_count_full_zero(b.drop_first());
    }
}

/// A board with no full row at all.
pub proof fn lemma_full_count_zero_rows(b: Seq<Seq<Pixel>>)
    requires
        full_count(b) == 0,
    ensures
        forall|i: int| 0 <= i < b.len() ==> !row_full(#[trigger] b[i]),
    decreases b.len(),
{
    if b.len() > 0 {
        lemma_kept_len(b.drop_first());
        if row_full(b.first()) {
            assert(kept_rows(b) == kept_rows(b.drop_first()));
            assert(false);
        }
        assert(kept_rows(b) == seq![b.first()] + kept_rows(b.drop_first()));
        lemma_full_count_zero_rows(b.drop_first());
        assert forall|i: int| 0 <= i < b.len() implies !row_full(#[trigger] b[i]) by {
            if i > 0 {
                assert(b[i] == b.drop_first()[i - 1]);
            }
        }
    }
}

/// If every full row of a 20-row board lies in the window `[lo, hi)`, there
/// are at most `hi - lo` full rows.
pub proof fn lemma_full_count_window(b: Seq<Seq<Pixel>>, lo: int, hi: int)
    requires
        b.len() == 20,
        0 <= lo <= hi <= 20,
        forall|i: int| 0 <= i < 20 && row_full(#[trigger] b[i]) ==> lo <= i < hi,
    ensures
        full_count(b) <= hi - lo,
{
    lemma_full_count_is_count_full(b);
    let front = b.subrange(0, lo);
    let mid = b.subrange(lo, hi);
    let back = b.subrange(hi, 20);
    assert(b =~= front + mid + back);
    lemma_count_full_distributes(front + mid, back);
    lemma_count_full_distributes(front, mid);
    lemma_count_full_zero(front);
    lemma_count_full_zero(back);
    lemma_count_full_le_len(mid);
}

/// Compaction leaves no fully occupied row behind.
pub proof fn lemma_compact_no_full(b: Seq<Seq<Pixel>>)
    ensures
        full_count(compact_seq(b)) == 0,
        kept_rows(compact_seq(b)) == compact_seq(b),
{
    lemma_kept_len(b);
    lemma_kept_not_full(b);
    let c = compact_seq(b);
    assert(!row_full(empty_row())) by {
        assert(empty_row()[0] is Empty);
    }
    assert forall|i: int| 0 <= i < c.len() implies !row_full(#[trigger] c[i]) by {
        if i >= full_count(b) {
            assert(c[i] == kept_rows(b)[i - full_count(b)]);
        }
    }
    lemma_kept_all(c);
}

/// Compacting an already compacted board changes nothing: compaction is
/// idempotent, and (since it reports zero full rows the second time) a second
/// compaction awards no points.
pub proof fn lemma_compact_idempotent(b: Seq<Seq<Pixel>>)
    ensures
        full_count(compact_seq(b)) == 0,
        compact_seq(compact_seq(b)) == compact_seq(b),
{
    lemma_compact_no_full(b);
    assert(compact_seq(compact_seq(b)) =~= compact_seq(b));
}

/// Whether every cell of a row is occupied.
pub fn row_is_full(r: &[Pixel; 10]) -> (b: bool)
    ensures
        b == row_full(r@),
{
    let mut x: usize = 0;
    while x < 10
        invariant
            x <= 10,
            forall|i: int| 0 <= i < x ==> r@[i] is Full,
        decreases 10 - x,
    {
        if r[x].is_empty() {
            return false;
        }
        x += 1;
    }
    true
}

/// Remove every fully occupied row, shift the rows above each removed row
/// one step toward the ground, leave the vacated top rows empty, and report
/// how many rows were removed.
pub fn compact(board: &mut Board) -> (cleared: usize)
    ensures
        board_seq(*final(board)) == compact_seq(board_seq(*old(board))),
        cleared == full_count(board_seq(*old(board))),
        cleared <= 20,
{
    let ghost orig = board_seq(*board);
    let mut w: usize = 20;
    let mut y: usize = 20;
    let mut count: usize = 0;
    proof {
        assert(orig.len() == 20);
        assert(orig.subrange(20, 20) =~= Seq::<Seq<Pixel>>::empty());
    }
    while y > 0
        invariant
            y <= w <= 20,
            count == w - y,
            orig.len() == 20,
            forall|j: int| 0 <= j < y ==> board_seq(*board)[j] == orig[j],
            kept_rows(orig.subrange(y as int, 20)).len() == 20 - w,
            forall|j: int|
                w <= j < 20 ==> board_seq(*board)[j] == kept_rows(orig.subrange(y as int, 20))[j
                    - w],
        decreases y,
    {
        y -= 1;
        let ghost old_kept = kept_rows(orig.subrange(y as int + 1, 20));
        let row = board[y];
        proof {
            assert(board_seq(*board)[y as int] == orig[y as int]);
            assert(row@ == orig[y as int]);
            let pre = seq![orig[y as int]] + orig.subrange(y as int + 1, 20);
            assert(orig.subrange(y as int, 20) =~= pre);
            assert(pre.drop_first() =~= orig.subrange(y as int + 1, 20));
            assert(pre.first() == orig[y as int]);
        }
        if !row_is_full(&row) {
            proof {
                assert(!row_full(orig[y as int]));
                assert(kept_rows(orig.subrange(y as int, 20)) =~= seq![orig[y as int]]
                    + old_kept);
            }
            w -= 1;
            let ghost prev = *board;
            board[w] = row;
            proof {
                assert(board@ == prev@.update(w as int, row));
                let new_kept = kept_rows(orig.subrange(y as int, 20));
                assert forall|j: int| w <= j < 20 implies board_seq(*board)[j] == new_kept[j
                    - w as int] by {
                    if j == w {
                        assert(board_seq(*board)[j] == row@);
                        assert(new_kept[0] == orig[y as int]);
                    } else {
                        assert(board@[j] == prev@[j]);
                        assert(board_seq(*board)[j] == board_seq(prev)[j]);
                        assert(board_seq(prev)[j] == old_kept[j - (w as int + 1)]);
                        assert(new_kept[j - w as int] == old_kept[j - w as int - 1]);
                    }
                }
                assert forall|j: int| 0 <= j < y implies board_seq(*board)[j] == orig[j] by {
                    assert(board@[j] == prev@[j]);
                    assert(board_seq(prev)[j] == orig[j]);
                }
            }
        } else {
            proof {
                assert(row_full(orig[y as int]));
                assert(kept_rows(orig.subrange(y as int, 20)) =~= old_kept);
            }
            count += 1;
        }
    }
    let ghost kept = kept_rows(orig);
    proof {
        assert(orig.subrange(0, 20) =~= orig);
        assert(kept.len() == 20 - w);
    }
    let empty: [Pixel; 10] = [Pixel::Empty; 10];
    proof {
        assert(empty@ =~= empty_row());
    }
    let mut j: usize = 0;
    while j < w
        invariant
            j <= w <= 20,
            empty@ == empty_row(),
            kept.len() == 20 - w,
            forall|i: int| w <= i < 20 ==> board_seq(*board)[i] == kept[i - w],
            forall|i: int| 0 <= i < j ==> board_seq(*board)[i] == empty_row(),
        decreases w - j,
    {
        let ghost prev = *board;
        board[j] = empty;
        proof {
            assert(board@ == prev@.update(j as int, empty));
            assert forall|i: int| w <= i < 20 implies board_seq(*board)[i] == kept[i
                - w as int] by {
                assert(board@[i] == prev@[i]);
                assert(board_seq(prev)[i] == kept[i - w as int]);
            }
            assert forall|i: int| 0 <= i <= j implies board_seq(*board)[i] == empty_row() by {
                if i == j {
                    assert(board_seq(*board)[i] == empty@);
                } else {
                    assert(board@[i] == prev@[i]);
                    assert(board_seq(prev)[i] == empty_row());
                }
            }
        }
        j += 1;
    }
    proof {
        assert(full_count(orig) == w);
        assert forall|i: int| 0 <= i < 20 implies board_seq(*board)[i] == compact_seq(orig)[i] by {
            if i < w {
                assert(board_seq(*board)[i] == empty_row());
            } else {
                assert(board_seq(*board)[i] == kept[i - w as int]);
            }
        }
        assert(board_seq(*board) =~= compact_seq(orig));
    }
    count
}

} // verus!
