//! Static exchange: what a capture sequence on one square is worth when each
//! side always takes with its least valuable piece and may stop at any time.
use vstd::prelude::*;
use crate::bitboard::{
    bit, count_s, drop_bit, holds, lemma_count_range, lemma_count_update, without_bit,
};
use crate::moves::{Move, MoveFlag};
use crate::num::max2;
use crate::position::{
    kind_at, kind_s, lands_s, occ_s, occupied, on, passed_sq, reaches, sees, Placement, Position,
};
use crate::types::{Color, PieceType, Square};

verus! {

/// A piece of kind `t` and colour `c` still on `from` attacks `s`.
pub open spec fn takes(pl: Placement, occ: u64, c: Color, t: int, from: int, s: int) -> bool {
    bit(occ, from) && on(pl, c.index(), t, from) && reaches(occ, PieceType::at(t), c, from, s)
}

/// The first pair of kind and square, counting from `n`, whose piece attacks
/// `s`: kind times 64 plus square, or 384 when there is none.
pub open spec fn attacker_from(pl: Placement, occ: u64, c: Color, s: int, n: int) -> int
    decreases 384 - n,
{
    if n >= 384 {
        384
    } else if takes(pl, occ, c, n / 64, n % 64, s) {
        n
    } else {
        attacker_from(pl, occ, c, s, n + 1)
    }
}

pub proof fn lemma_attacker(pl: Placement, occ: u64, c: Color, s: int, n: int)
    requires
        0 <= n <= 384,
    ensures
        n <= attacker_from(pl, occ, c, s, n) <= 384,
        attacker_from(pl, occ, c, s, n) < 384 ==> bit(occ, attacker_from(pl, occ, c, s, n) % 64),
    decreases 384 - n,
{
    if n < 384 && !takes(pl, occ, c, n / 64, n % 64, s) {
        lemma_attacker(pl, occ, c, s, n + 1);
    }
}

/// What `side` wins by being allowed to start taking on `s`, where a piece
/// worth `victim` stands.
pub open spec fn exchange(pl: Placement, occ: u64, s: int, side: Color, victim: int) -> int
    decreases count_s(occ),
{
    let a = attacker_from(pl, occ, side, s, 0);
    if a >= 384 {
        0
    } else {
        proof {
            lemma_attacker(pl, occ, side, s, 0);
            lemma_count_update(occ, a % 64, 64);
            lemma_count_range(without_bit(occ, a % 64), 64);
        }
        max2(
            0,
            victim - exchange(
                pl,
                without_bit(occ, a % 64),
                s,
                side.other(),
                PieceType::at(a / 64).worth(),
            ),
        )
    }
}

/// What the move takes at once.
pub open spec fn prize(p: Position, mv: Move) -> int {
    let taken = if mv.flag == MoveFlag::EnPassant {
        PieceType::Pawn.worth()
    } else {
        match kind_s(p.pieces[p.them()], mv.to as int) {
            Some(pt) => pt.worth(),
            None => 0,
        }
    };
    taken + match mv.promotion {
        Some(pt) => pt.worth() - PieceType::Pawn.worth(),
        None => 0,
    }
}

/// The squares still occupied once the mover has left, and the pawn taken in
/// passing with it.
pub open spec fn occ_lifted(p: Position, mv: Move) -> u64 {
    let occ = without_bit(occ_s(p.pieces), mv.from as int);
    if mv.flag == MoveFlag::EnPassant {
        without_bit(occ, passed_sq(mv))
    } else {
        occ
    }
}

/// The material balance of the move and of everything taken on its square
/// afterwards.
pub open spec fn see_s(p: Position, mv: Move) -> int {
    prize(p, mv) - exchange(
        p.pieces,
        occ_lifted(p, mv),
        mv.to as int,
        p.side.other(),
        lands_s(p, mv).worth(),
    )
}

#[verifier::opaque]
pub open spec fn see_ge_s(p: Position, mv: Move, bar: int) -> bool {
    see_s(p, mv) >= bar
}

fn first_attacker(pl: &Placement, occ: u64, c: Color, s: Square) -> (r: u16)
    requires
        s < 64,
    ensures
        r == attacker_from(*pl, occ, c, s as int, 0),
        r <= 384,
        r < 384 ==> bit(occ, r as int % 64),
{
    let ci: usize = c.idx();
    let mut n: u16 = 0;
    proof {
        lemma_attacker(*pl, occ, c, s as int, 0);
    }
    while n < 384
        invariant
            n <= 384,
            s < 64,
            ci == c.index(),
            ci < 2,
            attacker_from(*pl, occ, c, s as int, n as int) == attacker_from(
                *pl,
                occ,
                c,
                s as int,
                0,
            ),
            attacker_from(*pl, occ, c, s as int, 0) < 384 ==> bit(
                occ,
                attacker_from(*pl, occ, c, s as int, 0) % 64,
            ),
        decreases 384 - n,
    {
        let t: usize = (n / 64) as usize;
        let from: u8 = (n % 64) as u8;
        if holds(occ, from) && holds(pl[ci][t], from) && sees(occ, PieceType::of(t), c, from, s) {
            return n;
        }
        n = n + 1;
    }
    384
}

fn exchange_value(pl: &Placement, occ: u64, s: Square, side: Color, victim: i32) -> (r: i32)
    requires
        s < 64,
        0 <= victim <= 20000,
    ensures
        r == exchange(*pl, occ, s as int, side, victim as int),
        0 <= r <= 20000,
    decreases count_s(occ),
{
    let a: u16 = first_attacker(pl, occ, side, s);
    if a >= 384 {
        return 0;
    }
    let from: u8 = (a % 64) as u8;
    let t: usize = (a / 64) as usize;
    proof {
        lemma_count_update(occ, from as int, 64);
        lemma_count_range(without_bit(occ, from as int), 64);
    }
    let next: i32 = exchange_value(
        pl,
        drop_bit(occ, from),
        s,
        side.opp(),
        PieceType::of(t).value(),
    );
    if victim > next { victim - next } else { 0 }
}

/// The exchange started by this move is worth at least `bar` centipawns.
pub fn see_ge(p: &Position, mv: &Move, bar: i32) -> (r: bool)
    requires
        mv.wf(),
    ensures
        r == see_ge_s(*p, *mv, bar as int),
{
    let us: usize = p.side.idx();
    let them: usize = p.side.opp().idx();
    let passing: bool = mv.flag == MoveFlag::EnPassant;
    let taken: i32 = if passing {
        PieceType::Pawn.value()
    } else {
        match kind_at(&p.pieces[them], mv.to) {
            Some(pt) => pt.value(),
            None => 0,
        }
    };
    let raised: i32 = match mv.promotion {
        Some(pt) => pt.value() - PieceType::Pawn.value(),
        None => 0,
    };
    let lands: PieceType = match mv.promotion {
        Some(pt) => pt,
        None => match kind_at(&p.pieces[us], mv.from) {
            Some(pt) => pt,
            None => PieceType::Pawn,
        },
    };
    let mut occ: u64 = drop_bit(occupied(&p.pieces), mv.from);
    if passing {
        occ = drop_bit(occ, (mv.from / 8) * 8 + mv.to % 8);
    }
    let back: i32 = exchange_value(&p.pieces, occ, mv.to, p.side.opp(), lands.value());
    proof {
        reveal(see_ge_s);
    }
    taken + raised - back >= bar
}

/// A capture is never worth more than what it takes at once, and what clears a
/// bar clears every lower one.
pub proof fn law_exchange_bars(p: Position, mv: Move, high: int, low: int)
    requires
        low <= high,
        see_ge_s(p, mv, high),
    ensures
        see_ge_s(p, mv, low),
        high <= prize(p, mv),
{
    reveal(see_ge_s);
}

}
