//! Colours, piece kinds and squares.
use vstd::prelude::*;

verus! {

/// `0` is a1, `7` is h1, `63` is h8.
pub type Square = u8;

#[derive(Clone, Copy, PartialEq, Eq, Structural, Debug)]
pub enum Color {
    White,
    Black,
}

impl Color {
    pub open spec fn index(self) -> int {
        match self {
            Color::White => 0,
            Color::Black => 1,
        }
    }

    pub fn idx(self) -> (r: usize)
        ensures
            r == self.index(),
            r < 2,
    {
        match self {
            Color::White => 0,
            Color::Black => 1,
        }
    }

    pub open spec fn other(self) -> Color {
        match self {
            Color::White => Color::Black,
            Color::Black => Color::White,
        }
    }

    /// The opponent.
    pub fn opp(self) -> (r: Color)
        ensures
            r == self.other(),
    {
        match self {
            Color::White => Color::Black,
            Color::Black => Color::White,
        }
    }

    pub open spec fn at(i: int) -> Color {
        if i == 0 { Color::White } else { Color::Black }
    }

    /// The colour with this index.
    pub fn of(i: usize) -> (r: Color)
        requires
            i < 2,
        ensures
            r == Color::at(i as int),
            r.index() == i,
    {
        if i == 0 { Color::White } else { Color::Black }
    }
}

#[derive(Clone, Copy, PartialEq, Eq, Structural, Debug)]
pub enum PieceType {
    Pawn,
    Knight,
    Bishop,
    Rook,
    Queen,
    King,
}

impl PieceType {
    pub open spec fn index(self) -> int {
        match self {
            PieceType::Pawn => 0,
            PieceType::Knight => 1,
            PieceType::Bishop => 2,
            PieceType::Rook => 3,
            PieceType::Queen => 4,
            PieceType::King => 5,
        }
    }

    pub fn idx(self) -> (r: usize)
        ensures
            r == self.index(),
            r < 6,
    {
        match self {
            PieceType::Pawn => 0,
            PieceType::Knight => 1,
            PieceType::Bishop => 2,
            PieceType::Rook => 3,
            PieceType::Queen => 4,
            PieceType::King => 5,
        }
    }

    pub open spec fn at(i: int) -> PieceType {
        if i == 0 {
            PieceType::Pawn
        } else if i == 1 {
            PieceType::Knight
        } else if i == 2 {
            PieceType::Bishop
        } else if i == 3 {
            PieceType::Rook
        } else if i == 4 {
            PieceType::Queen
        } else {
            PieceType::King
        }
    }

    /// The kind with this index.
    pub fn of(i: usize) -> (r: PieceType)
        requires
            i < 6,
        ensures
            r == PieceType::at(i as int),
            r.index() == i,
    {
        if i == 0 {
            PieceType::Pawn
        } else if i == 1 {
            PieceType::Knight
        } else if i == 2 {
            PieceType::Bishop
        } else if i == 3 {
            PieceType::Rook
        } else if i == 4 {
            PieceType::Queen
        } else {
            PieceType::King
        }
    }

    /// What a piece is worth in centipawns.
    pub open spec fn worth(self) -> int {
        match self {
            PieceType::Pawn => 100,
            PieceType::Knight => 320,
            PieceType::Bishop => 330,
            PieceType::Rook => 500,
            PieceType::Queen => 900,
            PieceType::King => 20000,
        }
    }

    pub fn value(self) -> (r: i32)
        ensures
            r == self.worth(),
            100 <= r <= 20000,
    {
        match self {
            PieceType::Pawn => 100,
            PieceType::Knight => 320,
            PieceType::Bishop => 330,
            PieceType::Rook => 500,
            PieceType::Queen => 900,
            PieceType::King => 20000,
        }
    }
}

pub open spec fn file_s(s: int) -> int {
    s % 8
}

pub open spec fn rank_s(s: int) -> int {
    s / 8
}

pub fn file_of(s: Square) -> (r: u8)
    ensures
        r == file_s(s as int),
        r < 8,
{
    s % 8
}

pub fn rank_of(s: Square) -> (r: u8)
    ensures
        r == rank_s(s as int),
        s < 64 ==> r < 8,
{
    s / 8
}

}
