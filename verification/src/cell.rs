//! Cells: the atomic unit of grid content.

use vstd::prelude::*;

verus! {

/// A 24-bit colour.
#[derive(Clone, Copy, Debug, PartialEq, Eq, Structural)]
pub struct Rgb {
    pub r: u8,
    pub g: u8,
    pub b: u8,
}

/// A cell colour: a named palette slot, an explicit colour, or a palette index.
#[derive(Clone, Copy, Debug, PartialEq, Eq, Structural)]
pub enum Color {
    Named(u16),
    Spec(Rgb),
    Indexed(u8),
}

/// Style flag: emphasised (bold) text.
pub const BOLD: u16 = 2;

/// A character with its colours and style flags.
///
/// Change detection compares cells by their character alone; a write copies
/// the whole cell.
#[derive(Clone, Copy, Debug, PartialEq, Eq, Structural)]
pub struct Cell {
    pub c: char,
    pub fg: Color,
    pub bg: Color,
    pub flags: u16,
}

impl Cell {
    /// A cell with no style flags set.
    pub fn new(c: char, fg: Color, bg: Color) -> (cell: Cell)
        ensures
            cell == (Cell { c, fg, bg, flags: 0 }),
    {
        Cell { c, fg, bg, flags: 0 }
    }

    /// Whether the cell shows nothing.
    pub open spec fn blank(self) -> bool {
        self.c == ' '
    }

    /// Whether the cell shows nothing.
    pub fn is_blank(&self) -> (b: bool)
        ensures
            b == self.blank(),
    {
        self.c == ' '
    }
}

} // verus!
