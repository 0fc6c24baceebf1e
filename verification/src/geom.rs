//! Geometry primitives: colors, pieces, board coordinates, movement
//! directions and the coordinate shift arithmetic.

use vstd::prelude::*;

verus! {

/// The two sides. `Black` is the default side to move on a fresh board.
#[derive(Clone, Copy, PartialEq, Eq, Structural, Debug)]
pub enum Color {
    White,
    Black,
}

/// The side opposed to `c`.
pub open spec fn opposite(c: Color) -> Color {
    match c {
        Color::White => Color::Black,
        Color::Black => Color::White,
    }
}

impl Color {
    /// Flips the side: negation of a color.
    pub fn flip(self) -> (r: Color)
        ensures
            r == opposite(self),
    {
        match self {
            Color::White => Color::Black,
            Color::Black => Color::White,
        }
    }

    /// Parses the textual form `"white"` or `"black"`.
    ///
    /// Any other text is a protocol violation by the caller, so it is
    /// excluded up front rather than repaired.
    pub fn from_str(s: &str) -> (r: Self)
        requires
            s@ == "white"@ || s@ == "black"@,
        ensures
            r == (if s@ == "white"@ {
                Color::White
            } else {
                Color::Black
            }),
    {
        proof {
            reveal_strlit("white");
            reveal_strlit("black");
        }
        if s.get_char(0) == 'w' {
            Color::White
        } else {
            Color::Black
        }
    }
}

/// A checker: its side, and whether it has been crowned.
#[derive(Clone, Copy, PartialEq, Eq, Structural, Debug)]
pub struct Piece {
    pub king: bool,
    pub color: Color,
}

/// One square of the board.
#[derive(Clone, Copy, PartialEq, Eq, Structural, Debug)]
pub struct Cell {
    pub piece: Option<Piece>,
}

/// A board coordinate; only `row < 8 && col < 8` name a square.
#[derive(Clone, Copy, PartialEq, Eq, Structural, Debug)]
pub struct CellPos {
    pub col: usize,
    pub row: usize,
}

/// True when `p` names a square of the 8-by-8 board.
pub open spec fn pos_valid(p: CellPos) -> bool {
    p.row < 8 && p.col < 8
}

/// The row-major index of a square in a 64-entry grid.
pub open spec fn cell_index(p: CellPos) -> int {
    p.row * 8 + p.col
}

/// The square whose row-major index is `i`.
pub open spec fn pos_of_index(i: int) -> CellPos {
    CellPos { row: (i / 8) as usize, col: (i % 8) as usize }
}

/// The four diagonal movement directions. `Top` is towards row 7,
/// `Down` towards row 0; White pawns move `Top`, Black pawns `Down`.
#[derive(Clone, Copy, PartialEq, Eq, Structural, Debug)]
pub enum MoveDir {
    TopRight,
    TopLeft,
    DownRight,
    DownLeft,
}

/// The square one diagonal step from `p` in direction `d`, or `None`
/// off the board.
pub open spec fn shift_spec(p: CellPos, d: MoveDir) -> Option<CellPos>
    recommends
        pos_valid(p),
{
    match d {
        MoveDir::DownLeft => if p.col == 0 || p.row == 0 {
            None
        } else {
            Some(CellPos { col: (p.col - 1) as usize, row: (p.row - 1) as usize })
        },
        MoveDir::DownRight => if p.row == 0 || p.col == 7 {
            None
        } else {
            Some(CellPos { col: (p.col + 1) as usize, row: (p.row - 1) as usize })
        },
        MoveDir::TopLeft => if p.row == 7 || p.col == 0 {
            None
        } else {
            Some(CellPos { col: (p.col - 1) as usize, row: (p.row + 1) as usize })
        },
        MoveDir::TopRight => if p.row == 7 || p.col == 7 {
            None
        } else {
            Some(CellPos { col: (p.col + 1) as usize, row: (p.row + 1) as usize })
        },
    }
}

/// True when a piece may step or capture in direction `d`: kings move on
/// both diagonals, pawns only towards the far row of their color.
pub open spec fn dir_allowed(pc: Piece, d: MoveDir) -> bool {
    ||| pc.king
    ||| (pc.color == Color::White && (d == MoveDir::TopLeft || d == MoveDir::TopRight))
    ||| (pc.color == Color::Black && (d == MoveDir::DownLeft || d == MoveDir::DownRight))
}

impl CellPos {
    pub fn new(row: usize, col: usize) -> (r: Self)
        ensures
            r.row == row && r.col == col,
    {
        Self { col, row }
    }

    /// Parses the textual form: a column letter `A`..`H` then a row digit
    /// `0`..`7`, for example `C4`. Other text is a caller protocol
    /// violation and is excluded up front.
    pub fn from_str(s: &str) -> (r: Self)
        requires
            s@.len() >= 2,
            'A' <= s@[0] <= 'H',
            '0' <= s@[1] <= '7',
        ensures
            pos_valid(r),
            r.col == s@[0] as int - 'A' as int,
            r.row == s@[1] as int - '0' as int,
    {
        let l = s.get_char(0);
        let n = s.get_char(1);
        let col = (l as u8 - 65) as usize;
        let row = (n as u8 - 48) as usize;
        Self { col, row }
    }

    /// One diagonal step in direction `mv_dir`, or `None` off the board.
    pub fn shift(self, mv_dir: MoveDir) -> (r: Option<CellPos>)
        requires
            pos_valid(self),
        ensures
            r == shift_spec(self, mv_dir),
            r matches Some(p) ==> pos_valid(p),
    {
        match mv_dir {
            MoveDir::DownLeft => {
                if self.col == 0 || self.row == 0 {
                    return None;
                }
                Some(Self { col: self.col - 1, row: self.row - 1 })
            },
            MoveDir::DownRight => {
                if self.row == 0 || self.col == 7 {
                    return None;
                }
                Some(Self { col: self.col + 1, row: self.row - 1 })
            },
            MoveDir::TopLeft => {
                if self.row == 7 || self.col == 0 {
                    return None;
                }
                Some(Self { col: self.col - 1, row: self.row + 1 })
            },
            MoveDir::TopRight => {
                if self.row == 7 || self.col == 7 {
                    return None;
                }
                Some(Self { col: self.col + 1, row: self.row + 1 })
            },
        }
    }
}

impl MoveDir {
    /// Parses the two-letter codes `tr`, `tl`, `dr`, `dl`. Other text is a
    /// caller protocol violation and is excluded up front.
    pub fn from_str(s: &str) -> (r: Self)
        requires
            s@ == "tr"@ || s@ == "tl"@ || s@ == "dr"@ || s@ == "dl"@,
        ensures
            s@ == "tr"@ ==> r == MoveDir::TopRight,
            s@ == "tl"@ ==> r == MoveDir::TopLeft,
            s@ == "dr"@ ==> r == MoveDir::DownRight,
            s@ == "dl"@ ==> r == MoveDir::DownLeft,
    {
        proof {
            reveal_strlit("tr");
            reveal_strlit("tl");
            reveal_strlit("dr");
            reveal_strlit("dl");
        }
        let c0 = s.get_char(0);
        let c1 = s.get_char(1);
        if c0 == 't' {
            if c1 == 'r' {
                MoveDir::TopRight
            } else {
                MoveDir::TopLeft
            }
        } else {
            if c1 == 'r' {
                MoveDir::DownRight
            } else {
                MoveDir::DownLeft
            }
        }
    }
}

/// Move or jump the piece standing at `pos` one step in direction `dir`;
/// what occupies the destination decides between step and capture.
#[derive(Clone, Copy, PartialEq, Eq, Structural, Debug)]
pub struct PieceMove {
    pub pos: CellPos,
    pub dir: MoveDir,
}

impl PieceMove {
    /// Parses the textual form `"<CellPos> <MoveDir>"`, for example
    /// `"C4 tr"`. Other text is a caller protocol violation and is
    /// excluded up front.
    pub fn from_str(s: &str) -> (r: Self)
        requires
            s@.len() == 5,
            'A' <= s@[0] <= 'H',
            '0' <= s@[1] <= '7',
            s@[2] == ' ',
            s@.subrange(3, 5) == "tr"@ || s@.subrange(3, 5) == "tl"@ || s@.subrange(3, 5)
                == "dr"@ || s@.subrange(3, 5) == "dl"@,
        ensures
            pos_valid(r.pos),
            r.pos.col == s@[0] as int - 'A' as int,
            r.pos.row == s@[1] as int - '0' as int,
            s@.subrange(3, 5) == "tr"@ ==> r.dir == MoveDir::TopRight,
            s@.subrange(3, 5) == "tl"@ ==> r.dir == MoveDir::TopLeft,
            s@.subrange(3, 5) == "dr"@ ==> r.dir == MoveDir::DownRight,
            s@.subrange(3, 5) == "dl"@ ==> r.dir == MoveDir::DownLeft,
    {
        let pos = CellPos::from_str(s);
        let dir_part = s.substring_char(3, 5);
        let dir = MoveDir::from_str(dir_part);
        Self { pos, dir }
    }
}

/// The square at `(row, col)`.
pub fn cell(row: usize, col: usize) -> (r: CellPos)
    ensures
        r.row == row && r.col == col,
{
    CellPos::new(row, col)
}

} // verus!
