//! A move, and how it is written.
use vstd::prelude::*;
use crate::types::{PieceType, Square};

verus! {

#[derive(Clone, Copy, PartialEq, Eq, Structural, Debug)]
pub enum MoveFlag {
    Quiet,
    DoublePush,
    KingCastle,
    QueenCastle,
    Capture,
    EnPassant,
}

#[derive(Clone, Copy, PartialEq, Eq, Structural, Debug)]
pub struct Move {
    pub from: Square,
    pub to: Square,
    pub flag: MoveFlag,
    pub promotion: Option<PieceType>,
}

impl Move {
    /// Both squares are on the board.
    pub open spec fn wf(self) -> bool {
        self.from < 64 && self.to < 64
    }

    pub open spec fn captures(self) -> bool {
        self.flag == MoveFlag::Capture || self.flag == MoveFlag::EnPassant
    }

    pub fn is_capture(&self) -> (r: bool)
        ensures
            r == self.captures(),
    {
        match self.flag {
            MoveFlag::Capture => true,
            MoveFlag::EnPassant => true,
            _ => false,
        }
    }

    /// Neither takes anything nor promotes.
    pub open spec fn quiet(self) -> bool {
        !self.captures() && self.promotion is None
    }

    pub fn is_quiet(&self) -> (r: bool)
        ensures
            r == self.quiet(),
    {
        !self.is_capture() && self.promotion.is_none()
    }

    /// The move in coordinate notation: the two squares, then the letter of
    /// the piece promoted to, if there is one.
    pub open spec fn text(self) -> Seq<u8> {
        let base = seq![
            (97 + self.from % 8) as u8,
            (49 + self.from / 8) as u8,
            (97 + self.to % 8) as u8,
            (49 + self.to / 8) as u8,
        ];
        match self.promotion {
            None => base,
            Some(pt) => base.push(promo_letter(pt)),
        }
    }

    pub fn to_uci(&self) -> (r: Vec<u8>)
        requires
            self.wf(),
        ensures
            r@ == self.text(),
    {
        let mut out: Vec<u8> = Vec::new();
        out.push(97 + self.from % 8);
        out.push(49 + self.from / 8);
        out.push(97 + self.to % 8);
        out.push(49 + self.to / 8);
        match self.promotion {
            None => {},
            Some(pt) => {
                out.push(letter_of(pt));
            },
        }
        assert(out@ =~= self.text());
        out
    }
}

/// Every move of a list has both squares on the board.
pub open spec fn all_wf(s: Seq<Move>) -> bool {
    forall|i: int| 0 <= i < s.len() ==> (#[trigger] s[i]).wf()
}

/// The letter that names a piece, in lower case.
pub open spec fn promo_letter(pt: PieceType) -> u8 {
    match pt {
        PieceType::Pawn => 112,
        PieceType::Knight => 110,
        PieceType::Bishop => 98,
        PieceType::Rook => 114,
        PieceType::Queen => 113,
        PieceType::King => 107,
    }
}

pub fn letter_of(pt: PieceType) -> (r: u8)
    ensures
        r == promo_letter(pt),
{
    match pt {
        PieceType::Pawn => 112,
        PieceType::Knight => 110,
        PieceType::Bishop => 98,
        PieceType::Rook => 114,
        PieceType::Queen => 113,
        PieceType::King => 107,
    }
}

}
