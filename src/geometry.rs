use vstd::prelude::*;

verus! {

/// A grid coordinate: row first, then column.
#[derive(Clone, Copy, Debug, PartialEq, Eq, Structural)]
pub struct Cell {
    pub row: usize,
    pub column: usize,
}

/// The pixel size of one drawn cell.
#[derive(Clone, Copy, Debug, PartialEq, Eq, Structural)]
pub struct Size {
    pub width: u32,
    pub height: u32,
}

/// `a` and `b` are one step apart along a row or along a column.
pub open spec fn differ_by_one(a: int, b: int) -> bool {
    a + 1 == b || b + 1 == a
}

/// The adjacency rule: two cells are neighbours in the four-neighbour sense.
pub open spec fn are_adjacent(p: Cell, q: Cell) -> bool {
    (p.row == q.row && differ_by_one(p.column as int, q.column as int))
        || (p.column == q.column && differ_by_one(p.row as int, q.row as int))
}

impl Cell {
    pub fn new(row: usize, column: usize) -> (r: Cell)
        ensures
            r.row == row,
            r.column == column,
    {
        Cell { row, column }
    }
}

/// Decides the adjacency rule for two cells.
pub fn adjacent(p: Cell, q: Cell) -> (r: bool)
    ensures
        r == are_adjacent(p, q),
{
    if p.row == q.row {
        (p.column < usize::MAX && p.column + 1 == q.column)
            || (q.column < usize::MAX && q.column + 1 == p.column)
    } else if p.column == q.column {
        (p.row < usize::MAX && p.row + 1 == q.row) || (q.row < usize::MAX && q.row + 1 == p.row)
    } else {
        false
    }
}

/// The cell that a point in board pixels falls on, for a grid of
/// `rows` by `columns` cells of the given size: cell `(r, c)` covers the
/// half-open pixel box `[c * width, (c + 1) * width) x [r * height, (r + 1) * height)`.
pub open spec fn cell_of_point(rows: int, columns: int, size: Size, x: int, y: int) -> Option<Cell> {
    if x < 0 || y < 0 || size.width == 0 || size.height == 0 {
        None
    } else {
        let column = x / (size.width as int);
        let row = y / (size.height as int);
        if row < rows && column < columns {
            Some(Cell { row: row as usize, column: column as usize })
        } else {
            None
        }
    }
}

/// Maps a point in board pixels to the cell under it, or `None` where the
/// point lies outside the grid.
pub fn cell_at(rows: usize, columns: usize, size: Size, x: i64, y: i64) -> (r: Option<Cell>)
    ensures
        r == cell_of_point(rows as int, columns as int, size, x as int, y as int),
        r matches Some(c) ==> c.row < rows && c.column < columns,
{
    if x < 0 || y < 0 || size.width == 0 || size.height == 0 {
        None
    } else {
        let column: u64 = (x as u64) / (size.width as u64);
        let row: u64 = (y as u64) / (size.height as u64);
        if row < rows as u64 && column < columns as u64 {
            Some(Cell { row: row as usize, column: column as usize })
        } else {
            None
        }
    }
}

} // verus!
