//! A 9x9 sudoku board and a backtracking solver. The board is a row-major
//! sequence of 81 cells, 0 for an empty cell. Solving fills every empty
//! cell with a digit that is safe in its row, column and 3x3 box at the
//! moment of placement; a board that cannot be completed is left untouched.

use vstd::prelude::*;

verus! {

/// The cell in row `r`, column `c` of a row-major board.
pub open spec fn cell_of(s: Seq<u8>, r: int, c: int) -> u8 {
    s[r * 9 + c]
}

pub open spec fn in_grid(r: int, c: int) -> bool {
    0 <= r < 9 && 0 <= c < 9
}

/// No empty cell remains.
pub open spec fn grid_full(s: Seq<u8>) -> bool {
    forall|k: int| 0 <= k < 81 ==> s[k] != 0
}

/// Every clue of `s1` is kept in `s2`.
pub open spec fn grid_extends(s2: Seq<u8>, s1: Seq<u8>) -> bool {
    forall|k: int| 0 <= k < 81 && s1[k] != 0 ==> s2[k] == s1[k]
}

/// Two distinct positions share a row, a column or a 3x3 box.
pub open spec fn same_unit(r: int, c: int, r2: int, c2: int) -> bool {
    r == r2 || c == c2 || (r / 3 == r2 / 3 && c / 3 == c2 / 3)
}

/// No two distinct cells of the same unit hold the same digit.
pub open spec fn grid_valid(s: Seq<u8>) -> bool {
    forall|r: int, c: int, r2: int, c2: int|
        in_grid(r, c) && in_grid(r2, c2) && !(r == r2 && c == c2) && same_unit(r, c, r2, c2)
            && #[trigger] cell_of(s, r, c) != 0 ==> cell_of(s, r, c) != #[trigger] cell_of(
            s,
            r2,
            c2,
        )
}

/// Placing `num` at (`row`, `col`) clashes with no cell of the row, the
/// column or the box.
pub open spec fn grid_safe(s: Seq<u8>, row: int, col: int, num: u8) -> bool {
    &&& forall|i: int| 0 <= i < 9 ==> #[trigger] cell_of(s, row, i) != num
    &&& forall|i: int| 0 <= i < 9 ==> #[trigger] cell_of(s, i, col) != num
    &&& forall|i: int, j: int|
        0 <= i < 3 && 0 <= j < 3 ==> #[trigger] cell_of(s, 3 * (row / 3) + i, 3 * (col / 3) + j)
            != num
}

/// How many cells are still empty.
pub open spec fn zeros(s: Seq<u8>) -> nat
    decreases s.len(),
{
    if s.len() == 0 {
        0
    } else {
        zeros(s.drop_last()) + (if s.last() == 0 {
            1nat
        } else {
            0nat
        })
    }
}

proof fn lemma_zeros_update(s: Seq<u8>, k: int, x: u8)
    requires
        0 <= k < s.len(),
        s[k] == 0,
        x != 0,
    ensures
        zeros(s.update(k, x)) + 1 == zeros(s),
    decreases s.len(),
{
    let t = s.update(k, x);
    if k == s.len() - 1 {
        assert(t.drop_last() =~= s.drop_last());
    } else {
        assert(t.drop_last() =~= s.drop_last().update(k, x));
        lemma_zeros_update(s.drop_last(), k, x);
        assert(t.last() == s.last());
    }
}

/// A safe placement on an empty cell of a valid board keeps it valid.
proof fn lemma_place_keeps_valid(s: Seq<u8>, row: int, col: int, num: u8)
    requires
        s.len() == 81,
        in_grid(row, col),
        cell_of(s, row, col) == 0,
        num != 0,
        grid_valid(s),
        grid_safe(s, row, col, num),
    ensures
        grid_valid(s.update(row * 9 + col, num)),
{
    let t = s.update(row * 9 + col, num);
    assert forall|r: int, c: int, r2: int, c2: int|
        in_grid(r, c) && in_grid(r2, c2) && !(r == r2 && c == c2) && same_unit(r, c, r2, c2)
            && #[trigger] cell_of(t, r, c) != 0 implies cell_of(t, r, c) != #[trigger] cell_of(
        t,
        r2,
        c2,
    ) by {
        let kk = row * 9 + col;
        assert(r * 9 + c == kk <==> r == row && c == col);
        assert(r2 * 9 + c2 == kk <==> r2 == row && c2 == col);
        if r == row && c == col {
            // the placed cell against some other cell of its unit
            assert(cell_of(t, r, c) == num);
            lemma_other_cell_differs(s, row, col, num, r2, c2);
            assert(cell_of(t, r2, c2) == cell_of(s, r2, c2));
        } else if r2 == row && c2 == col {
            assert(cell_of(t, r2, c2) == num);
            lemma_other_cell_differs(s, row, col, num, r, c);
            assert(cell_of(t, r, c) == cell_of(s, r, c));
        } else {
            assert(cell_of(t, r, c) == cell_of(s, r, c));
            assert(cell_of(t, r2, c2) == cell_of(s, r2, c2));
            assert(cell_of(s, r, c) != 0 ==> cell_of(s, r, c) != cell_of(s, r2, c2));
        }
    }
}

/// A cell of the placed cell's unit, other than the placed cell itself,
/// cannot hold the placed digit on a board where the placement is safe.
proof fn lemma_other_cell_differs(s: Seq<u8>, row: int, col: int, num: u8, r2: int, c2: int)
    requires
        s.len() == 81,
        in_grid(row, col),
        in_grid(r2, c2),
        !(r2 == row && c2 == col),
        same_unit(row, col, r2, c2),
        grid_safe(s, row, col, num),
    ensures
        cell_of(s, r2, c2) != num,
{
    if r2 == row {
        assert(cell_of(s, row, c2) != num);
    } else if c2 == col {
        assert(cell_of(s, r2, col) != num);
    } else {
        let i = r2 - 3 * (row / 3);
        let j = c2 - 3 * (col / 3);
        assert(3 * (r2 / 3) <= r2 < 3 * (r2 / 3) + 3) by (nonlinear_arith);
        assert(3 * (c2 / 3) <= c2 < 3 * (c2 / 3) + 3) by (nonlinear_arith);
        assert(0 <= i < 3);
        assert(0 <= j < 3);
        assert(cell_of(s, 3 * (row / 3) + i, 3 * (col / 3) + j) != num);
        assert(3 * (row / 3) + i == r2 && 3 * (col / 3) + j == c2);
    }
}

pub struct Sudoku {
    board: Vec<u8>,
}

impl Sudoku {
    /// Eighty-one cells, row-major.
    pub closed spec fn wf(self) -> bool {
        self.board@.len() == 81
    }

    /// The board as a sequence of cells.
    pub closed spec fn cells(self) -> Seq<u8> {
        self.board@
    }

    /// A board from its eighty-one cells, row-major, 0 for empty.
    pub fn new(board: Vec<u8>) -> (r: Sudoku)
        requires
            board@.len() == 81,
        ensures
            r.wf(),
            r.cells() == board@,
    {
        Sudoku { board }
    }

    /// The cell in the given row and column.
    pub fn cell(&self, row: usize, col: usize) -> (v: u8)
        requires
            self.wf(),
            row < 9,
            col < 9,
        ensures
            v == cell_of(self.cells(), row as int, col as int),
    {
        self.board[row * 9 + col]
    }

    fn first_empty(&self) -> (r: Option<usize>)
        requires
            self.wf(),
        ensures
            match r {
                Some(k) => k < 81 && self.cells()[k as int] == 0 && (forall|j: int|
                    0 <= j < k ==> self.cells()[j] != 0),
                None => grid_full(self.cells()),
            },
    {
        let mut k: usize = 0;
        while k < 81
            invariant
                self.wf(),
                k <= 81,
                forall|j: int| 0 <= j < k ==> self.cells()[j] != 0,
            decreases 81 - k,
        {
            if self.board[k] == 0 {
                return Some(k);
            }
            k += 1;
        }
        None
    }

    /// Whether `num` may stand in the given cell: its row, column and box
    /// are scanned for the digit, exactly once each.
    pub fn is_safe(&self, row: usize, col: usize, num: u8) -> (b: bool)
        requires
            self.wf(),
            row < 9,
            col < 9,
        ensures
            b == grid_safe(self.cells(), row as int, col as int, num),
    {
        let mut i: usize = 0;
        while i < 9
            invariant
                self.wf(),
                row < 9,
                i <= 9,
                forall|t: int| 0 <= t < i ==> #[trigger] cell_of(self.cells(), row as int, t) != num,
            decreases 9 - i,
        {
            if self.board[row * 9 + i] == num {
                assert(cell_of(self.cells(), row as int, i as int) == num);
                return false;
            }
            i += 1;
        }
        let mut i: usize = 0;
        while i < 9
            invariant
                self.wf(),
                col < 9,
                i <= 9,
                forall|t: int| 0 <= t < i ==> #[trigger] cell_of(self.cells(), t, col as int) != num,
            decreases 9 - i,
        {
            if self.board[i * 9 + col] == num {
                assert(cell_of(self.cells(), i as int, col as int) == num);
                return false;
            }
            i += 1;
        }
        let start_row = row - row % 3;
        let start_col = col - col % 3;
        assert(start_row == 3 * ((row as int) / 3));
        assert(start_col == 3 * ((col as int) / 3));
        let mut i: usize = 0;
        while i < 3
            invariant
                self.wf(),
                row < 9,
                col < 9,
                start_row == 3 * ((row as int) / 3),
                start_col == 3 * ((col as int) / 3),
                i <= 3,
                forall|a: int, b: int|
                    0 <= a < i && 0 <= b < 3 ==> #[trigger] cell_of(
                        self.cells(),
                        start_row + a,
                        start_col + b,
                    ) != num,
            decreases 3 - i,
        {
            let mut j: usize = 0;
            while j < 3
                invariant
                    self.wf(),
                    row < 9,
                    col < 9,
                    i < 3,
                    start_row == 3 * ((row as int) / 3),
                    start_col == 3 * ((col as int) / 3),
                    j <= 3,
                    forall|a: int, b: int|
                        0 <= a < i && 0 <= b < 3 ==> #[trigger] cell_of(
                            self.cells(),
                            start_row + a,
                            start_col + b,
                        ) != num,
                    forall|b: int|
                        0 <= b < j ==> #[trigger] cell_of(
                            self.cells(),
                            start_row + i,
                            start_col + b,
                        ) != num,
                decreases 3 - j,
            {
                if self.board[(i + start_row) * 9 + (j + start_col)] == num {
                    assert(cell_of(self.cells(), start_row + i, start_col + j) == num);
                    return false;
                }
                j += 1;
            }
            i += 1;
        }
        true
    }

    /// The backtracking solver. On success the board is completely filled,
    /// every clue is kept, and a board whose clues did not clash still has
    /// no clash anywhere. On failure the board is exactly as it was.
    pub fn solve(&mut self) -> (r: bool)
        requires
            old(self).wf(),
        ensures
            final(self).wf(),
            r ==> grid_full(final(self).cells()) && grid_extends(
                final(self).cells(),
                old(self).cells(),
            ) && (grid_valid(old(self).cells()) ==> grid_valid(final(self).cells())),
            !r ==> final(self).cells() == old(self).cells(),
        decreases zeros(old(self).cells()),
    {
        let found = self.first_empty();
        let k = match found {
            None => {
                return true;
            }
            Some(k) => k,
        };
        let row = k / 9;
        let col = k % 9;
        assert(row < 9 && col < 9);
        assert(row * 9 + col == k);
        let ghost entry = self.cells();
        let mut num: u8 = 1;
        while num <= 9
            invariant
                self.wf(),
                self.cells() == entry,
                entry == old(self).cells(),
                entry.len() == 81,
                entry[k as int] == 0,
                row < 9,
                col < 9,
                row * 9 + col == k as int,
                1 <= num <= 10,
                zeros(self.cells()) == zeros(entry),
            decreases 10 - num,
        {
            if self.is_safe(row, col, num) {
                let ghost placed = entry.update(k as int, num);
                self.board[k] = num;
                assert(self.cells() == placed);
                proof {
                    lemma_zeros_update(entry, k as int, num);
                }
                let solved = self.solve();
                if solved {
                    proof {
                        assert(grid_full(self.cells()));
                        assert(grid_extends(self.cells(), placed));
                        assert forall|j: int| 0 <= j < 81 && entry[j] != 0
                            implies self.cells()[j] == entry[j] by {
                            assert(placed[j] == entry[j]);
                            assert(self.cells()[j] == placed[j]);
                        }
                        if grid_valid(entry) {
                            lemma_place_keeps_valid(entry, row as int, col as int, num);
                        }
                    }
                    return true;
                }
                self.board[k] = 0;
                proof {
                    assert(self.cells() =~= entry);
                }
            }
            num = num + 1;
        }
        false
    }
}

} // verus!
