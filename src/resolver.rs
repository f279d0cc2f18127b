use vstd::arithmetic::div_mod::lemma_fundamental_div_mod_converse;
use vstd::prelude::*;

use crate::board::{Board, BoardModel};
use crate::geometry::{cell_at, cell_of_point, Cell, Size};
use crate::random::random_colors;
use crate::tile::Color;

verus! {

/// The color at row `r`, column `k`.
pub open spec fn color_rc(m: BoardModel, r: int, k: int) -> Color {
    m.colors[r * m.columns + k]
}

/// Row `r` holds one color at columns `s`, `s + 1` and `s + 2`.
pub open spec fn row_triple(m: BoardModel, r: int, s: int) -> bool {
    &&& 0 <= r < m.rows
    &&& 0 <= s
    &&& s + 2 < m.columns
    &&& color_rc(m, r, s) == color_rc(m, r, s + 1)
    &&& color_rc(m, r, s + 1) == color_rc(m, r, s + 2)
}

/// Column `k` holds one color at rows `s`, `s + 1` and `s + 2`.
pub open spec fn column_triple(m: BoardModel, s: int, k: int) -> bool {
    &&& 0 <= k < m.columns
    &&& 0 <= s
    &&& s + 2 < m.rows
    &&& color_rc(m, s, k) == color_rc(m, s + 1, k)
    &&& color_rc(m, s + 1, k) == color_rc(m, s + 2, k)
}

/// Cell `(r, k)` belongs to a run of three or more equal colors along its row
/// or its column: that is, one of the three-cell windows through it, in
/// either direction, is of a single color.
pub open spec fn in_run(m: BoardModel, r: int, k: int) -> bool {
    ||| row_triple(m, r, k - 2)
    ||| row_triple(m, r, k - 1)
    ||| row_triple(m, r, k)
    ||| column_triple(m, r - 2, k)
    ||| column_triple(m, r - 1, k)
    ||| column_triple(m, r, k)
}

/// The cell at row-major position `i` is marked for clearing.
pub open spec fn marked(m: BoardModel, i: int) -> bool {
    in_run(m, i / (m.columns as int), i % (m.columns as int))
}

/// Some cell of the board lies in a run of three.
pub open spec fn has_run(m: BoardModel) -> bool {
    exists|i: int| 0 <= i < m.len() && #[trigger] marked(m, i)
}

fn row_triple_at(b: &Board, r: usize, s: usize) -> (t: bool)
    requires
        b.wf(),
        r < b@.rows,
        s + 2 < b@.columns,
    ensures
        t == row_triple(b@, r as int, s as int),
{
    let columns = b.columns();
    assert(s + 2 < columns);
    let x = b.color_at(Cell::new(r, s));
    let y = b.color_at(Cell::new(r, s + 1));
    let z = b.color_at(Cell::new(r, s + 2));
    x == y && y == z
}

fn column_triple_at(b: &Board, s: usize, k: usize) -> (t: bool)
    requires
        b.wf(),
        s + 2 < b@.rows,
        k < b@.columns,
    ensures
        t == column_triple(b@, s as int, k as int),
{
    let rows = b.rows();
    assert(s + 2 < rows);
    let x = b.color_at(Cell::new(s, k));
    let y = b.color_at(Cell::new(s + 1, k));
    let z = b.color_at(Cell::new(s + 2, k));
    x == y && y == z
}

/// Whether the cell at row `r`, column `k` lies in a run of three or more.
pub fn cell_in_run(b: &Board, r: usize, k: usize) -> (t: bool)
    requires
        b.wf(),
        r < b@.rows,
        k < b@.columns,
    ensures
        t == in_run(b@, r as int, k as int),
{
    let rows = b.rows();
    let cols = b.columns();
    (k >= 2 && row_triple_at(b, r, k - 2))
        || (k >= 1 && cols - k > 1 && row_triple_at(b, r, k - 1))
        || (cols - k > 2 && row_triple_at(b, r, k))
        || (r >= 2 && column_triple_at(b, r - 2, k))
        || (r >= 1 && rows - r > 1 && column_triple_at(b, r - 1, k))
        || (rows - r > 2 && column_triple_at(b, r, k))
}

/// Marks, in row-major order, every cell that lies in a run of three or
/// more equal colors, horizontally or vertically, over the whole grid.
pub fn matched_cells(b: &Board) -> (marks: Vec<bool>)
    requires
        b.wf(),
    ensures
        marks@.len() == b@.len(),
        forall|i: int| 0 <= i < b@.len() ==> #[trigger] marks@[i] == marked(b@, i),
{
    let n = b.cell_count();
    let cols = b.columns();
    let mut marks: Vec<bool> = Vec::new();
    let mut i: usize = 0;
    let mut r: usize = 0;
    let mut k: usize = 0;
    while i < n
        invariant
            b.wf(),
            n == b@.len(),
            cols == b@.columns,
            i <= n,
            k < cols,
            i == r * cols + k,
            marks@.len() == i,
            forall|j: int| 0 <= j < i ==> #[trigger] marks@[j] == marked(b@, j),
        decreases n - i,
    {
        proof {
            lemma_fundamental_div_mod_converse(i as int, cols as int, r as int, k as int);
            let (ri, ki, ci, rows) = (r as int, k as int, cols as int, b@.rows as int);
            assert(ri < rows) by (nonlinear_arith)
                requires
                    ri * ci + ki < rows * ci,
                    0 <= ki,
                    0 < ci,
            {
                if ri >= rows {
                    assert(ri * ci >= rows * ci);
                }
            }
            assert(ri <= ri * ci) by (nonlinear_arith)
                requires
                    0 <= ri,
                    1 <= ci,
            ;
        }
        marks.push(cell_in_run(b, r, k));
        i = i + 1;
        if k + 1 == cols {
            assert((r + 1) * cols == r * cols + cols) by (nonlinear_arith);
            k = 0;
            r = r + 1;
        } else {
            k = k + 1;
        }
    }
    marks
}

/// Refills stop after this many passes even if runs remain, so that a
/// click always finishes; each pass redraws every marked cell.
pub const MAX_RESOLVE_PASSES: usize = 64;

fn any_marked(marks: &Vec<bool>) -> (r: bool)
    ensures
        r == exists|i: int| 0 <= i < marks@.len() && #[trigger] marks@[i],
{
    let mut i: usize = 0;
    while i < marks.len()
        invariant
            i <= marks@.len(),
            forall|j: int| 0 <= j < i ==> !#[trigger] marks@[j],
        decreases marks@.len() - i,
    {
        if marks[i] {
            return true;
        }
        i = i + 1;
    }
    false
}

/// `after` differs from `before` at most in the colors of cells.
pub open spec fn same_but_colors(before: BoardModel, after: BoardModel) -> bool {
    &&& after.rows == before.rows
    &&& after.columns == before.columns
    &&& after.colors.len() == before.colors.len()
    &&& after.selected == before.selected
    &&& after.pending == before.pending
    &&& after.palette == before.palette
}

impl Board {
    /// One resolver pass: marks every cell of every run of three or more,
    /// then gives each marked cell a color drawn from the palette. Returns
    /// whether anything was marked; cells that were not marked keep their
    /// colors.
    pub fn resolve_pass(&mut self) -> (found: bool)
        requires
            old(self).wf(),
        ensures
            final(self).wf(),
            found == has_run(old(self)@),
            !found ==> final(self)@ == old(self)@,
            same_but_colors(old(self)@, final(self)@),
            forall|i: int|
                0 <= i < old(self)@.len() ==> if marked(old(self)@, i) {
                    old(self)@.palette.contains(#[trigger] final(self)@.colors[i])
                } else {
                    final(self)@.colors[i] == old(self)@.colors[i]
                },
    {
        let marks = matched_cells(self);
        if !any_marked(&marks) {
            assert(!has_run(self@)) by {
                assert forall|i: int| 0 <= i < self@.len() implies !#[trigger] marked(self@, i) by {
                    assert(marks@[i] == marked(self@, i));
                }
            }
            return false;
        }
        let fresh = random_colors(self.palette(), self.cell_count());
        self.refill(&marks, &fresh);
        true
    }

    /// Resolver passes until no run remains, at most `MAX_RESOLVE_PASSES`
    /// of them. Returns whether the board is free of runs at the end.
    pub fn resolve(&mut self) -> (settled: bool)
        requires
            old(self).wf(),
        ensures
            final(self).wf(),
            same_but_colors(old(self)@, final(self)@),
            settled == !has_run(final(self)@),
            !has_run(old(self)@) ==> final(self)@ == old(self)@,
    {
        let mut passes: usize = 0;
        while passes < MAX_RESOLVE_PASSES
            invariant
                self.wf(),
                same_but_colors(old(self)@, self@),
                !has_run(old(self)@) ==> self@ == old(self)@,
            decreases MAX_RESOLVE_PASSES - passes,
        {
            if !self.resolve_pass() {
                return true;
            }
            passes = passes + 1;
        }
        let marks = matched_cells(self);
        let found = any_marked(&marks);
        assert(found == has_run(self@)) by {
            if found {
                let i = choose|i: int| 0 <= i < marks@.len() && #[trigger] marks@[i];
                assert(marked(self@, i));
            } else {
                assert forall|i: int| 0 <= i < self@.len() implies !#[trigger] marked(self@, i) by {
                    assert(marks@[i] == marked(self@, i));
                }
            }
        }
        !found
    }

    /// A click at pixel `(x, y)` of a board drawn with cells of the given
    /// size: the selection protocol of `click` on the cell under the point,
    /// followed, when two colors were exchanged, by `resolve`. Returns
    /// whether colors were exchanged.
    pub fn handle_click(&mut self, size: Size, x: i64, y: i64) -> (swapped: bool)
        requires
            old(self).wf(),
        ensures
            ({
                let hit = cell_of_point(old(self)@.rows as int, old(self)@.columns as int, size, x as int, y as int);
                let next = old(self)@.after_click(hit);
                &&& final(self).wf()
                &&& swapped == old(self)@.click_swaps(hit)
                &&& same_but_colors(next, final(self)@)
                &&& (!has_run(next) ==> final(self)@ == next)
                &&& (!swapped ==> final(self)@ == next)
            }),
    {
        let hit = cell_at(self.rows(), self.columns(), size, x, y);
        let swapped = self.click(hit);
        if swapped {
            self.resolve();
        }
        swapped
    }
}

} // verus!
