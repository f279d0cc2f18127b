use vstd::prelude::*;

verus! {

/// The colors a tile can have.
#[derive(Clone, Copy, Debug, PartialEq, Eq, Structural)]
pub enum Color {
    Red,
    Green,
    Blue,
}

/// One cell of the grid: its color and whether the player has it selected.
#[derive(Clone, Copy, Debug, PartialEq, Eq, Structural)]
pub struct Tile {
    pub color: Color,
    pub selected: bool,
}

impl Tile {
    /// A tile of the given color, not selected.
    pub fn new(color: Color) -> (r: Tile)
        ensures
            r.color == color,
            !r.selected,
    {
        Tile { color, selected: false }
    }

    pub fn set_color(&mut self, color: Color)
        ensures
            final(self).color == color,
            final(self).selected == old(self).selected,
    {
        self.color = color;
    }

    pub fn set_selected(&mut self, selected: bool)
        ensures
            final(self).selected == selected,
            final(self).color == old(self).color,
    {
        self.selected = selected;
    }

    pub fn color(&self) -> (r: Color)
        ensures
            r == self.color,
    {
        self.color
    }

    pub fn is_selected(&self) -> (r: bool)
        ensures
            r == self.selected,
    {
        self.selected
    }
}

} // verus!
