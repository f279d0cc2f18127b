use vstd::prelude::*;

use crate::geometry::{adjacent, are_adjacent, Cell};
use crate::random::random_colors;
use crate::tile::{Color, Tile};

verus! {

/// The mathematical picture of a board: its dimensions, the colors and
/// selection flags of its cells in row-major order, the pending selection
/// and the palette that refills draw from.
pub struct BoardModel {
    pub rows: nat,
    pub columns: nat,
    pub colors: Seq<Color>,
    pub selected: Seq<bool>,
    pub pending: Option<Cell>,
    pub palette: Seq<Color>,
}

impl BoardModel {
    /// The number of cells.
    pub open spec fn len(self) -> nat {
        self.rows * self.columns
    }

    pub open spec fn contains(self, c: Cell) -> bool {
        c.row < self.rows && c.column < self.columns
    }

    /// Row-major position of a cell.
    pub open spec fn index(self, c: Cell) -> int {
        c.row * self.columns + c.column
    }

    pub open spec fn color(self, c: Cell) -> Color {
        self.colors[self.index(c)]
    }

    pub open spec fn is_selected(self, c: Cell) -> bool {
        self.selected[self.index(c)]
    }

    /// The settled state: the only selected tile, if any, is the pending one.
    pub open spec fn selection_settled(self) -> bool {
        forall|i: int|
            0 <= i < self.len() ==> #[trigger] self.selected[i] == (self.pending matches Some(
                p,
            ) && i == self.index(p))
    }

    pub open spec fn wf(self) -> bool {
        &&& self.rows > 0
        &&& self.columns > 0
        &&& self.colors.len() == self.len()
        &&& self.selected.len() == self.len()
        &&& self.palette.len() > 0
        &&& (self.pending matches Some(p) ==> self.contains(p))
        &&& self.selection_settled()
    }

    /// The same board with no tile selected and no pending selection.
    pub open spec fn cleared(self) -> BoardModel {
        BoardModel { selected: Seq::new(self.len(), |i: int| false), pending: None, ..self }
    }

    /// The same board with `c` selected and pending.
    pub open spec fn with_pending(self, c: Cell) -> BoardModel {
        BoardModel {
            selected: self.selected.update(self.index(c), true),
            pending: Some(c),
            ..self
        }
    }

    /// The colors with those of `p` and `q` exchanged.
    pub open spec fn swapped_colors(self, p: Cell, q: Cell) -> Seq<Color> {
        self.colors.update(self.index(p), self.color(q)).update(self.index(q), self.color(p))
    }

    /// A swap attempt: the colors of `p` and `q` are exchanged when the two
    /// cells are adjacent; otherwise nothing changes.
    pub open spec fn after_swap(self, p: Cell, q: Cell) -> BoardModel {
        if are_adjacent(p, q) {
            BoardModel { colors: self.swapped_colors(p, q), ..self }
        } else {
            self
        }
    }

    /// The state after one click, `hit` being the cell under it or `None`
    /// for a click beside the grid; a cell off the grid counts as a miss.
    pub open spec fn after_click(self, hit: Option<Cell>) -> BoardModel {
        match hit {
            None => self.cleared(),
            Some(c) => if !self.contains(c) || self.is_selected(c) {
                self.cleared()
            } else {
                match self.pending {
                    None => self.with_pending(c),
                    Some(p) => self.after_swap(p, c).cleared(),
                }
            },
        }
    }

    /// Whether a click on `hit` exchanges two colors.
    pub open spec fn click_swaps(self, hit: Option<Cell>) -> bool {
        hit matches Some(c) && self.contains(c) && !self.is_selected(c) && (self.pending matches Some(p)
            && are_adjacent(p, c))
    }
}

/// A cell on the grid has a row-major position inside the grid.
pub proof fn lemma_index_in_bounds(m: BoardModel, c: Cell)
    requires
        m.contains(c),
    ensures
        0 <= m.index(c) < m.len(),
{
    let (r, k, rows, cols) = (c.row as int, c.column as int, m.rows as int, m.columns as int);
    assert(0 <= r * cols + k < rows * cols) by (nonlinear_arith)
        requires
            0 <= r < rows,
            0 <= k < cols,
    {
        assert(r * cols + k < (r + 1) * cols);
        assert((r + 1) * cols <= rows * cols);
    }
}

/// Distinct cells on the grid have distinct row-major positions.
pub proof fn lemma_index_injective(m: BoardModel, p: Cell, q: Cell)
    requires
        m.contains(p),
        m.contains(q),
        p != q,
    ensures
        m.index(p) != m.index(q),
{
    let (r1, k1, r2, k2, cols) = (
        p.row as int,
        p.column as int,
        q.row as int,
        q.column as int,
        m.columns as int,
    );
    assert(r1 * cols + k1 != r2 * cols + k2) by (nonlinear_arith)
        requires
            0 <= r1,
            0 <= r2,
            0 <= k1 < cols,
            0 <= k2 < cols,
            r1 != r2 || k1 != k2,
    {
        if r1 < r2 {
            assert(r1 * cols + k1 < (r1 + 1) * cols);
            assert((r1 + 1) * cols <= r2 * cols);
        } else if r2 < r1 {
            assert(r2 * cols + k2 < (r2 + 1) * cols);
            assert((r2 + 1) * cols <= r1 * cols);
        }
    }
}

/// Why a board could not be built.
#[derive(Clone, Copy, Debug, PartialEq, Eq, Structural)]
pub enum BoardError {
    /// The grid has no rows or no columns.
    EmptyGrid,
    /// The palette holds no color.
    EmptyPalette,
    /// The number of colors given is not rows times columns.
    WrongCellCount,
    /// Rows times columns does not fit in a `usize`.
    TooLarge,
}

/// A fixed-size grid of tiles with the pending selection of the two-click
/// swap protocol.
pub struct Board {
    rows: usize,
    columns: usize,
    tiles: Vec<Tile>,
    pending: Option<Cell>,
    palette: Vec<Color>,
}

impl View for Board {
    type V = BoardModel;

    closed spec fn view(&self) -> BoardModel {
        BoardModel {
            rows: self.rows as nat,
            columns: self.columns as nat,
            colors: self.tiles@.map_values(|t: Tile| t.color),
            selected: self.tiles@.map_values(|t: Tile| t.selected),
            pending: self.pending,
            palette: self.palette@,
        }
    }
}

impl Board {
    pub open spec fn wf(&self) -> bool {
        self@.wf()
    }

    /// A board of `rows` by `columns` cells whose colors are given in
    /// row-major order, with nothing selected.
    pub fn from_colors(rows: usize, columns: usize, palette: Vec<Color>, colors: Vec<Color>) -> (r:
        Result<Board, BoardError>)
        ensures
            (rows == 0 || columns == 0) ==> r == Err::<Board, BoardError>(BoardError::EmptyGrid),
            (rows > 0 && columns > 0 && palette@.len() == 0) ==> r == Err::<Board, BoardError>(
                BoardError::EmptyPalette,
            ),
            (rows > 0 && columns > 0 && palette@.len() > 0 && colors@.len() != rows * columns)
                ==> r == Err::<Board, BoardError>(BoardError::WrongCellCount),
            (rows > 0 && columns > 0 && palette@.len() > 0 && colors@.len() == rows * columns)
                ==> r is Ok,
            r matches Ok(b) ==> {
                &&& b.wf()
                &&& b@.rows == rows
                &&& b@.columns == columns
                &&& b@.colors == colors@
                &&& b@.pending is None
                &&& b@.palette == palette@
                &&& forall|i: int| 0 <= i < b@.len() ==> !#[trigger] b@.selected[i]
            },
    {
        if rows == 0 || columns == 0 {
            return Err(BoardError::EmptyGrid);
        }
        if palette.len() == 0 {
            return Err(BoardError::EmptyPalette);
        }
        match rows.checked_mul(columns) {
            None => {
                let len = colors.len();
                assert(len != rows * columns);
                return Err(BoardError::WrongCellCount);
            },
            Some(n) => {
                if colors.len() != n {
                    return Err(BoardError::WrongCellCount);
                }
            },
        }
        let mut tiles: Vec<Tile> = Vec::new();
        let mut i: usize = 0;
        while i < colors.len()
            invariant
                i <= colors@.len(),
                tiles@.len() == i,
                forall|j: int|
                    0 <= j < i ==> (#[trigger] tiles@[j]).color == colors@[j] && !tiles@[j].selected,
            decreases colors@.len() - i,
        {
            tiles.push(Tile::new(colors[i]));
            i = i + 1;
        }
        let b = Board { rows, columns, tiles, pending: None, palette };
        assert(b@.colors =~= colors@);
        Ok(b)
    }

    /// A board of `rows` by `columns` cells, each colored by an independent
    /// random draw from the palette, with nothing selected.
    pub fn random(rows: usize, columns: usize, palette: Vec<Color>) -> (r: Result<Board, BoardError>)
        ensures
            (rows == 0 || columns == 0) ==> r == Err::<Board, BoardError>(BoardError::EmptyGrid),
            (rows > 0 && columns > 0 && palette@.len() == 0) ==> r == Err::<Board, BoardError>(
                BoardError::EmptyPalette,
            ),
            (rows > 0 && columns > 0 && palette@.len() > 0 && rows * columns > usize::MAX) ==> r
                == Err::<Board, BoardError>(BoardError::TooLarge),
            (rows > 0 && columns > 0 && palette@.len() > 0 && rows * columns <= usize::MAX) ==> r is Ok,
            r matches Ok(b) ==> {
                &&& b.wf()
                &&& b@.rows == rows
                &&& b@.columns == columns
                &&& b@.pending is None
                &&& b@.palette == palette@
                &&& forall|i: int| 0 <= i < b@.len() ==> !#[trigger] b@.selected[i]
                &&& forall|i: int| 0 <= i < b@.len() ==> palette@.contains(#[trigger] b@.colors[i])
            },
    {
        if rows == 0 || columns == 0 {
            return Err(BoardError::EmptyGrid);
        }
        if palette.len() == 0 {
            return Err(BoardError::EmptyPalette);
        }
        match rows.checked_mul(columns) {
            None => Err(BoardError::TooLarge),
            Some(n) => {
                let colors = random_colors(&palette, n);
                Board::from_colors(rows, columns, palette, colors)
            },
        }
    }

    fn index_of(&self, c: Cell) -> (r: usize)
        requires
            self.wf(),
            self@.contains(c),
        ensures
            r == self@.index(c),
            r < self@.len(),
    {
        let n = self.tiles.len();
        proof {
            lemma_index_in_bounds(self@, c);
            assert(n == self@.colors.len());
        }
        c.row * self.columns + c.column
    }

    pub fn rows(&self) -> (r: usize)
        ensures
            r == self@.rows,
    {
        self.rows
    }

    pub fn columns(&self) -> (r: usize)
        ensures
            r == self@.columns,
    {
        self.columns
    }

    /// The number of cells, rows times columns.
    pub fn cell_count(&self) -> (r: usize)
        requires
            self.wf(),
        ensures
            r == self@.len(),
    {
        self.tiles.len()
    }

    /// The pending selection: the tile picked first and not yet paired.
    pub fn pending_selection(&self) -> (r: Option<Cell>)
        ensures
            r == self@.pending,
    {
        self.pending
    }

    pub fn palette(&self) -> (r: &Vec<Color>)
        ensures
            r@ == self@.palette,
    {
        &self.palette
    }

    pub fn tile(&self, c: Cell) -> (r: Tile)
        requires
            self.wf(),
            self@.contains(c),
        ensures
            r.color == self@.color(c),
            r.selected == self@.is_selected(c),
    {
        let i = self.index_of(c);
        self.tiles[i]
    }

    pub fn color_at(&self, c: Cell) -> (r: Color)
        requires
            self.wf(),
            self@.contains(c),
        ensures
            r == self@.color(c),
    {
        self.tile(c).color
    }

    pub fn is_selected(&self, c: Cell) -> (r: bool)
        requires
            self.wf(),
            self@.contains(c),
        ensures
            r == self@.is_selected(c),
    {
        self.tile(c).selected
    }

    /// Deselects every tile and forgets the pending selection.
    fn clear_selection(&mut self)
        requires
            old(self)@.colors.len() == old(self)@.len(),
            old(self)@.selected.len() == old(self)@.len(),
        ensures
            final(self)@ == old(self)@.cleared(),
    {
        let mut i: usize = 0;
        while i < self.tiles.len()
            invariant
                self.rows == old(self).rows,
                self.columns == old(self).columns,
                self.palette == old(self).palette,
                self.tiles@.len() == old(self).tiles@.len(),
                i <= self.tiles@.len(),
                forall|j: int|
                    0 <= j < self.tiles@.len() ==> (#[trigger] self.tiles@[j]).color == old(
                        self,
                    ).tiles@[j].color,
                forall|j: int| 0 <= j < i ==> !(#[trigger] self.tiles@[j]).selected,
            decreases self.tiles@.len() - i,
        {
            let mut t = self.tiles[i];
            t.set_selected(false);
            self.tiles.set(i, t);
            i = i + 1;
        }
        self.pending = None;
        assert(self@.colors =~= old(self)@.colors);
        assert(self@.selected =~= old(self)@.cleared().selected);
    }

    /// Attempts to exchange the colors of `p` and `q`. The move is allowed,
    /// and made, exactly when the two cells are adjacent; selection is left
    /// as it is.
    pub fn swap(&mut self, p: Cell, q: Cell) -> (allowed: bool)
        requires
            old(self).wf(),
            old(self)@.contains(p),
            old(self)@.contains(q),
        ensures
            allowed == are_adjacent(p, q),
            final(self)@ == old(self)@.after_swap(p, q),
            final(self).wf(),
    {
        if adjacent(p, q) {
            let i = self.index_of(p);
            let j = self.index_of(q);
            proof {
                lemma_index_injective(self@, p, q);
            }
            let a = self.tiles[i];
            let b = self.tiles[j];
            let mut ta = a;
            ta.set_color(b.color);
            let mut tb = b;
            tb.set_color(a.color);
            self.tiles.set(i, ta);
            self.tiles.set(j, tb);
            assert(self@.colors =~= old(self)@.swapped_colors(p, q));
            assert(self@.selected =~= old(self)@.selected);
            true
        } else {
            false
        }
    }

    /// One click of the selection protocol; `hit` is the cell under the
    /// pointer, or `None` for a click beside the grid. A miss (a cell off the
    /// grid is one), or a click on the selected tile, cancels the selection.
    /// A first pick selects the tile and keeps it pending. A second pick on another tile attempts the
    /// swap of the two and then clears the selection, allowed or not.
    /// Returns whether colors were exchanged.
    pub fn click(&mut self, hit: Option<Cell>) -> (swapped: bool)
        requires
            old(self).wf(),
        ensures
            final(self).wf(),
            final(self)@ == old(self)@.after_click(hit),
            swapped == old(self)@.click_swaps(hit),
    {
        match hit {
            None => {
                self.clear_selection();
                false
            },
            Some(c) => {
                if c.row >= self.rows || c.column >= self.columns {
                    self.clear_selection();
                    return false;
                }
                let i = self.index_of(c);
                if self.tiles[i].selected {
                    self.clear_selection();
                    false
                } else {
                    match self.pending {
                        None => {
                            let mut t = self.tiles[i];
                            t.set_selected(true);
                            self.tiles.set(i, t);
                            self.pending = Some(c);
                            assert(self@.colors =~= old(self)@.colors);
                            assert(self@.selected =~= old(self)@.with_pending(c).selected);
                            false
                        },
                        Some(p) => {
                            let swapped = self.swap(p, c);
                            self.clear_selection();
                            swapped
                        },
                    }
                }
            },
        }
    }
    /// Gives every marked cell its fresh color and leaves the others as they
    /// are; both vectors are in row-major order.
    pub fn refill(&mut self, marks: &Vec<bool>, fresh: &Vec<Color>)
        requires
            old(self).wf(),
            marks@.len() == old(self)@.len(),
            fresh@.len() == old(self)@.len(),
        ensures
            final(self).wf(),
            final(self)@ == (BoardModel {
                colors: Seq::new(
                    old(self)@.len(),
                    |i: int|
                        if marks@[i] {
                            fresh@[i]
                        } else {
                            old(self)@.colors[i]
                        },
                ),
                ..old(self)@
            }),
    {
        let mut i: usize = 0;
        while i < self.tiles.len()
            invariant
                self.rows == old(self).rows,
                self.columns == old(self).columns,
                self.palette == old(self).palette,
                self.pending == old(self).pending,
                self.tiles@.len() == old(self).tiles@.len(),
                marks@.len() == self.tiles@.len(),
                fresh@.len() == self.tiles@.len(),
                i <= self.tiles@.len(),
                forall|j: int|
                    0 <= j < self.tiles@.len() ==> (#[trigger] self.tiles@[j]).selected == old(
                        self,
                    ).tiles@[j].selected,
                forall|j: int|
                    0 <= j < i ==> (#[trigger] self.tiles@[j]).color == if marks@[j] {
                        fresh@[j]
                    } else {
                        old(self).tiles@[j].color
                    },
                forall|j: int|
                    i <= j < self.tiles@.len() ==> (#[trigger] self.tiles@[j]).color == old(
                        self,
                    ).tiles@[j].color,
            decreases self.tiles@.len() - i,
        {
            if marks[i] {
                let mut t = self.tiles[i];
                t.set_color(fresh[i]);
                self.tiles.set(i, t);
            }
            i = i + 1;
        }
        assert(self@.selected =~= old(self)@.selected);
        assert(self@.colors =~= Seq::new(
            old(self)@.len(),
            |i: int|
                if marks@[i] {
                    fresh@[i]
                } else {
                    old(self)@.colors[i]
                },
        ));
    }
}

} // verus!
