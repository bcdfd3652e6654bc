//! The VGA text console: its character cells and the layout of its buffer.

pub mod laws;
pub mod writer;

use vstd::prelude::*;

verus! {

/// The colors the console writes text in.
#[derive(Clone, Copy, Debug, PartialEq, Eq, Structural)]
pub enum VGAColor {
    Black,
    Red,
    White,
}

impl VGAColor {
    /// The color's VGA attribute code.
    pub open spec fn code_spec(self) -> u8 {
        match self {
            VGAColor::Black => 0x0,
            VGAColor::Red => 0x4,
            VGAColor::White => 0xf,
        }
    }

    /// The color's VGA attribute code: 0x0 black, 0x4 red, 0xf white.
    pub fn code(self) -> (c: u8)
        ensures
            c == self.code_spec(),
    {
        match self {
            VGAColor::Black => 0x0,
            VGAColor::Red => 0x4,
            VGAColor::White => 0xf,
        }
    }
}

/// One cell of the text buffer: a character and its attribute byte.
#[derive(Clone, Copy, Debug, PartialEq, Eq, Structural)]
pub struct VGAChar {
    ascii: u8,
    color: u8,
}

impl View for VGAChar {
    type V = (u8, u8);

    closed spec fn view(&self) -> (u8, u8) {
        (self.ascii, self.color)
    }
}

impl VGAChar {
    /// Cells with the same character and attribute are the same cell.
    pub proof fn lemma_view_determines(a: VGAChar, b: VGAChar)
        requires
            a@ == b@,
        ensures
            a == b,
    {
    }

    /// The cell that shows `ascii` in `color`.
    pub fn new(ascii: u8, color: VGAColor) -> (c: Self)
        ensures
            c@ == (ascii, color.code_spec()),
    {
        Self { ascii, color: color.code() }
    }

    /// The character byte.
    pub fn ascii(&self) -> (a: u8)
        ensures
            a == self@.0,
    {
        self.ascii
    }

    /// The attribute byte.
    pub fn color(&self) -> (c: u8)
        ensures
            c == self@.1,
    {
        self.color
    }
}

/// A cell position on the screen: column `x`, row `y`.
#[derive(Clone, Copy, Debug, PartialEq, Eq, Structural)]
pub struct Position {
    pub x: u32,
    pub y: u32,
}

/// Width in cells of the VGA text screen.
pub const SCREEN_WIDTH: u32 = 80;

/// Height in cells of the VGA text screen.
pub const SCREEN_HEIGHT: u32 = 25;

/// The shape of the text buffer: `size.x` columns by `size.y` rows, stored
/// row by row.
#[derive(Clone, Copy, Debug, PartialEq, Eq, Structural)]
pub struct VgaLayout {
    size: Position,
}

impl View for VgaLayout {
    type V = Position;

    closed spec fn view(&self) -> Position {
        self.size
    }
}

/// The buffer index of the cell at `position`, or `None` when the position
/// lies off the screen.
pub open spec fn cell_index(size: Position, position: Position) -> Option<usize> {
    if position.x < size.x && position.y < size.y {
        Some((position.y * size.x + position.x) as usize)
    } else {
        None
    }
}

impl VgaLayout {
    #[verifier::type_invariant]
    spec fn inv(self) -> bool {
        self.size.x * self.size.y <= u32::MAX
    }

    /// The standard text mode: 80 columns by 25 rows.
    pub fn standard() -> (l: Self)
        ensures
            l@ == (Position { x: SCREEN_WIDTH, y: SCREEN_HEIGHT }),
            l@.x * l@.y <= u32::MAX,
    {
        assert(SCREEN_WIDTH * SCREEN_HEIGHT == 2000);
        Self { size: Position { x: SCREEN_WIDTH, y: SCREEN_HEIGHT } }
    }

    /// The buffer index of the cell at `position`, or `None` when the
    /// position lies off the screen.
    pub fn cell_offset(&self, position: Position) -> (r: Option<usize>)
        ensures
            r == cell_index(self@, position),
            r matches Some(i) ==> i < self@.x * self@.y,
    {
        proof {
            use_type_invariant(self);
        }
        if position.x < self.size.x && position.y < self.size.y {
            assert(position.y * self.size.x + position.x < self.size.x * self.size.y) by (nonlinear_arith)
                requires
                    position.x < self.size.x,
                    position.y < self.size.y,
            ;
            Some((position.y * self.size.x + position.x) as usize)
        } else {
            None
        }
    }

    /// The number of cells on the screen.
    pub fn cell_count(&self) -> (n: usize)
        ensures
            n == self@.x * self@.y,
    {
        proof {
            use_type_invariant(self);
        }
        (self.size.x * self.size.y) as usize
    }

    /// The cell that clearing the screen writes everywhere: a black space.
    pub fn blank_cell() -> (c: VGAChar)
        ensures
            c@ == (0x20u8, VGAColor::Black.code_spec()),
    {
        VGAChar::new(0x20, VGAColor::Black)
    }
}

} // verus!
