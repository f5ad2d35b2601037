//! The legal moves of a position, in a fixed order: by origin square, then by
//! destination, then queen, rook, bishop, knight for a promotion.
use vstd::prelude::*;
use crate::bitboard::{bit, holds};
use crate::moves::{Move, MoveFlag};
use crate::position::{
    after, attacked, checked_s, is_attacked, is_checked, kind_at, kind_s, lemma_kind, mover_s,
    occ_s, occupied, on, placement_after, playable, reaches, sees, Position,
};
use crate::types::{file_s, rank_s, Color, PieceType, Square};

verus! {

/// The move does not leave its own king where it can be taken.
pub open spec fn safe(p: Position, mv: Move) -> bool {
    !checked_s(placement_after(p, mv), p.side)
}

/// The move alone, if it is safe.
pub open spec fn kept(p: Position, mv: Move) -> Seq<Move> {
    if safe(p, mv) { seq![mv] } else { seq![] }
}

pub open spec fn plain(from: int, to: int, flag: MoveFlag) -> Move {
    Move { from: from as u8, to: to as u8, flag, promotion: None }
}

pub open spec fn promoting(from: int, to: int, flag: MoveFlag, pt: PieceType) -> Move {
    Move { from: from as u8, to: to as u8, flag, promotion: Some(pt) }
}

/// A pawn arriving on `to`: four promotions on the last rank, one move
/// elsewhere.
pub open spec fn pawn_arrives(p: Position, from: int, to: int, flag: MoveFlag) -> Seq<Move> {
    if rank_s(to) == (if p.side == Color::White { 7int } else { 0 }) {
        kept(p, promoting(from, to, flag, PieceType::Queen)) + kept(
            p,
            promoting(from, to, flag, PieceType::Rook),
        ) + kept(p, promoting(from, to, flag, PieceType::Bishop)) + kept(
            p,
            promoting(from, to, flag, PieceType::Knight),
        )
    } else {
        kept(p, plain(from, to, flag))
    }
}

/// The pawn moves from `from` to `to`, which holds nothing of ours and not the
/// enemy king; `taken` says whether an enemy stands there.
pub open spec fn pawn_moves(p: Position, from: int, to: int, taken: bool) -> Seq<Move> {
    let up = if p.side == Color::White { 8int } else { -8 };
    let home = if p.side == Color::White { 1int } else { 6 };
    if taken {
        if reaches(occ_s(p.pieces), PieceType::Pawn, p.side, from, to) {
            pawn_arrives(p, from, to, MoveFlag::Capture)
        } else {
            seq![]
        }
    } else if to == from + up {
        pawn_arrives(p, from, to, MoveFlag::Quiet)
    } else if to == from + 2 * up && rank_s(from) == home && !bit(
        occ_s(p.pieces),
        (from + to) / 2,
    ) {
        kept(p, plain(from, to, MoveFlag::DoublePush))
    } else if p.ep == Some(to as u8) && reaches(
        occ_s(p.pieces),
        PieceType::Pawn,
        p.side,
        from,
        to,
    ) && on(p.pieces, p.them(), 0, rank_s(from) * 8 + file_s(to)) {
        kept(p, plain(from, to, MoveFlag::EnPassant))
    } else {
        seq![]
    }
}

/// Castling: the right, the rook, an empty path, and a king that neither stands
/// on nor passes over an attacked square.
pub open spec fn castle_moves(p: Position, from: int, to: int) -> Seq<Move> {
    let home = if p.side == Color::White { 4int } else { 60 };
    let us = p.us();
    let occ = occ_s(p.pieces);
    let them = p.side.other();
    if from == home && to == home + 2 {
        if p.castling[us * 2] && on(p.pieces, us, 3, home + 3) && !bit(occ, home + 1) && !bit(
            occ,
            home + 2,
        ) && !attacked(p.pieces, occ, home, them) && !attacked(p.pieces, occ, home + 1, them) {
            kept(p, plain(from, to, MoveFlag::KingCastle))
        } else {
            seq![]
        }
    } else if from == home && to == home - 2 {
        if p.castling[us * 2 + 1] && on(p.pieces, us, 3, home - 4) && !bit(occ, home - 1) && !bit(
            occ,
            home - 2,
        ) && !bit(occ, home - 3) && !attacked(p.pieces, occ, home, them) && !attacked(
            p.pieces,
            occ,
            home - 1,
            them,
        ) {
            kept(p, plain(from, to, MoveFlag::QueenCastle))
        } else {
            seq![]
        }
    } else {
        seq![]
    }
}

/// The legal moves from one square to another.
pub open spec fn between(p: Position, from: int, to: int) -> Seq<Move> {
    let theirs = kind_s(p.pieces[p.them()], to);
    match kind_s(p.pieces[p.us()], from) {
        None => seq![],
        Some(pt) => if from == to || kind_s(p.pieces[p.us()], to) is Some || bit(
            p.pieces[p.them()][5],
            to,
        ) {
            seq![]
        } else if pt == PieceType::Pawn {
            pawn_moves(p, from, to, theirs is Some)
        } else if reaches(occ_s(p.pieces), pt, p.side, from, to) {
            kept(
                p,
                plain(
                    from,
                    to,
                    if theirs is Some { MoveFlag::Capture } else { MoveFlag::Quiet },
                ),
            )
        } else if pt == PieceType::King {
            castle_moves(p, from, to)
        } else {
            seq![]
        },
    }
}

/// The legal moves of the first `n` pairs of squares.
pub open spec fn legal_upto(p: Position, n: int) -> Seq<Move>
    decreases n,
{
    if n <= 0 {
        seq![]
    } else {
        legal_upto(p, n - 1) + between(p, (n - 1) / 64, (n - 1) % 64)
    }
}

/// The legal moves.
#[verifier::opaque]
pub open spec fn legal(p: Position) -> Seq<Move> {
    legal_upto(p, 4096)
}

/// The captures and promotions among the first `n` of a list, in order.
pub open spec fn forcing_upto(moves: Seq<Move>, n: int) -> Seq<Move>
    decreases n,
{
    if n <= 0 {
        seq![]
    } else if moves[n - 1].quiet() {
        forcing_upto(moves, n - 1)
    } else {
        forcing_upto(moves, n - 1).push(moves[n - 1])
    }
}

/// The legal captures and promotions.
#[verifier::opaque]
pub open spec fn legal_caps(p: Position) -> Seq<Move> {
    forcing_upto(legal(p), legal(p).len() as int)
}

fn keep(p: &Position, mv: Move, out: &mut Vec<Move>)
    requires
        playable(*p, mv),
    ensures
        final(out)@ == old(out)@ + kept(*p, mv),
{
    proof {
        reveal(after);
    }
    let next = p.play(&mv);
    let occ: u64 = occupied(&next.pieces);
    if !is_checked(&next.pieces, occ, p.side) {
        out.push(mv);
    }
    assert(out@ =~= old(out)@ + kept(*p, mv));
}

fn keep_pawn(p: &Position, from: Square, to: Square, flag: MoveFlag, out: &mut Vec<Move>)
    requires
        playable(*p, plain(from as int, to as int, flag)),
        mover_s(*p, plain(from as int, to as int, flag)) == PieceType::Pawn,
    ensures
        final(out)@ == old(out)@ + pawn_arrives(*p, from as int, to as int, flag),
{
    let last: u8 = if p.side == Color::White { 7 } else { 0 };
    if to / 8 == last {
        keep(p, Move { from, to, flag, promotion: Some(PieceType::Queen) }, out);
        keep(p, Move { from, to, flag, promotion: Some(PieceType::Rook) }, out);
        keep(p, Move { from, to, flag, promotion: Some(PieceType::Bishop) }, out);
        keep(p, Move { from, to, flag, promotion: Some(PieceType::Knight) }, out);
    } else {
        keep(p, Move { from, to, flag, promotion: None }, out);
    }
    assert(out@ =~= old(out)@ + pawn_arrives(*p, from as int, to as int, flag));
}

fn add_pawn(p: &Position, occ: u64, from: Square, to: Square, taken: bool, out: &mut Vec<Move>)
    requires
        occ == occ_s(p.pieces),
        from < 64,
        to < 64,
        from != to,
        kind_s(p.pieces[p.us()], from as int) == Some(PieceType::Pawn),
        !bit(p.pieces[p.them()][5], to as int),
    ensures
        final(out)@ == old(out)@ + pawn_moves(*p, from as int, to as int, taken),
{
    let them: usize = p.side.opp().idx();
    let home: u8 = if p.side == Color::White { 1 } else { 6 };
    let up: i16 = if p.side == Color::White { 8 } else { -8 };
    let f: i16 = from as i16;
    let t: i16 = to as i16;
    if taken {
        if sees(occ, PieceType::Pawn, p.side, from, to) {
            keep_pawn(p, from, to, MoveFlag::Capture, out);
        }
    } else if t == f + up {
        keep_pawn(p, from, to, MoveFlag::Quiet, out);
    } else if t == f + 2 * up && from / 8 == home && !holds(occ, (from + to) / 2) {
        keep(p, Move { from, to, flag: MoveFlag::DoublePush, promotion: None }, out);
    } else if p.ep == Some(to) && sees(occ, PieceType::Pawn, p.side, from, to) && holds(
        p.pieces[them][0],
        (from / 8) * 8 + to % 8,
    ) {
        keep(p, Move { from, to, flag: MoveFlag::EnPassant, promotion: None }, out);
    }
    assert(out@ =~= old(out)@ + pawn_moves(*p, from as int, to as int, taken));
}

fn add_castle(p: &Position, occ: u64, from: Square, to: Square, out: &mut Vec<Move>)
    requires
        occ == occ_s(p.pieces),
        from < 64,
        to < 64,
        from != to,
        kind_s(p.pieces[p.us()], from as int) == Some(PieceType::King),
        !bit(p.pieces[p.them()][5], to as int),
    ensures
        final(out)@ == old(out)@ + castle_moves(*p, from as int, to as int),
{
    let us: usize = p.side.idx();
    let them: Color = p.side.opp();
    let home: u8 = if p.side == Color::White { 4 } else { 60 };
    let mine: u64 = p.pieces[us][3];
    if from == home && to == home + 2 {
        if p.castling[us * 2] && holds(mine, home + 3) && !holds(occ, home + 1) && !holds(
            occ,
            home + 2,
        ) && !is_attacked(&p.pieces, occ, home, them) && !is_attacked(
            &p.pieces,
            occ,
            home + 1,
            them,
        ) {
            keep(p, Move { from, to, flag: MoveFlag::KingCastle, promotion: None }, out);
        }
    } else if from == home && to == home - 2 {
        if p.castling[us * 2 + 1] && holds(mine, home - 4) && !holds(occ, home - 1) && !holds(
            occ,
            home - 2,
        ) && !holds(occ, home - 3) && !is_attacked(&p.pieces, occ, home, them) && !is_attacked(
            &p.pieces,
            occ,
            home - 1,
            them,
        ) {
            keep(p, Move { from, to, flag: MoveFlag::QueenCastle, promotion: None }, out);
        }
    }
    assert(out@ =~= old(out)@ + castle_moves(*p, from as int, to as int));
}

fn add_between(
    p: &Position,
    occ: u64,
    pt: PieceType,
    from: Square,
    to: Square,
    out: &mut Vec<Move>,
)
    requires
        occ == occ_s(p.pieces),
        from < 64,
        to < 64,
        kind_s(p.pieces[p.us()], from as int) == Some(pt),
    ensures
        final(out)@ == old(out)@ + between(*p, from as int, to as int),
{
    let us: usize = p.side.idx();
    let them: usize = p.side.opp().idx();
    if from == to || kind_at(&p.pieces[us], to).is_some() || holds(p.pieces[them][5], to) {
    } else if pt == PieceType::Pawn {
        let taken: bool = kind_at(&p.pieces[them], to).is_some();
        add_pawn(p, occ, from, to, taken, out);
    } else if sees(occ, pt, p.side, from, to) {
        let flag: MoveFlag = if kind_at(&p.pieces[them], to).is_some() {
            MoveFlag::Capture
        } else {
            MoveFlag::Quiet
        };
        keep(p, Move { from, to, flag, promotion: None }, out);
    } else if pt == PieceType::King {
        add_castle(p, occ, from, to, out);
    }
    assert(out@ =~= old(out)@ + between(*p, from as int, to as int));
}

proof fn lemma_skip(p: Position, from: int, n: int)
    requires
        0 <= from < 64,
        0 <= n <= 64,
        kind_s(p.pieces[p.us()], from) is None,
    ensures
        legal_upto(p, from * 64 + n) == legal_upto(p, from * 64),
    decreases n,
{
    if n > 0 {
        lemma_skip(p, from, n - 1);
        let m = from * 64 + n;
        assert((m - 1) / 64 == from && (m - 1) % 64 == n - 1);
        assert(legal_upto(p, m) =~= legal_upto(p, m - 1));
    }
}

pub fn generate_legal(p: &Position) -> (r: Vec<Move>)
    ensures
        r@ == legal(*p),
{
    let mut out: Vec<Move> = Vec::new();
    let occ: u64 = occupied(&p.pieces);
    let us: usize = p.side.idx();
    let mut from: u8 = 0;
    while from < 64
        invariant
            from <= 64,
            us == p.us(),
            us < 2,
            occ == occ_s(p.pieces),
            out@ == legal_upto(*p, from * 64),
        decreases 64 - from,
    {
        match kind_at(&p.pieces[us], from) {
            None => {
                proof {
                    lemma_skip(*p, from as int, 64);
                }
            },
            Some(pt) => {
                let mut to: u8 = 0;
                while to < 64
                    invariant
                        from < 64,
                        to <= 64,
                        occ == occ_s(p.pieces),
                        kind_s(p.pieces[p.us()], from as int) == Some(pt),
                        out@ == legal_upto(*p, from * 64 + to),
                    decreases 64 - to,
                {
                    add_between(p, occ, pt, from, to, &mut out);
                    proof {
                        let m = from * 64 + to + 1;
                        assert((m - 1) / 64 == from && (m - 1) % 64 == to);
                    }
                    to = to + 1;
                }
            },
        }
        from = from + 1;
    }
    proof {
        reveal(legal);
    }
    out
}

pub fn generate_legal_caps(p: &Position) -> (r: Vec<Move>)
    ensures
        r@ == legal_caps(*p),
{
    let all: Vec<Move> = generate_legal(p);
    let mut out: Vec<Move> = Vec::new();
    let mut n: usize = 0;
    while n < all.len()
        invariant
            n <= all@.len(),
            out@ == forcing_upto(all@, n as int),
        decreases all@.len() - n,
    {
        if !all[n].is_quiet() {
            out.push(all[n]);
        }
        n = n + 1;
    }
    proof {
        reveal(legal_caps);
    }
    out
}

proof fn lemma_between_playable(p: Position, from: int, to: int, i: int)
    requires
        0 <= from < 64,
        0 <= to < 64,
        0 <= i < between(p, from, to).len(),
    ensures
        playable(p, between(p, from, to)[i]),
{
    lemma_kind(p.pieces[p.us()], from, 0);
}

proof fn lemma_upto_playable(p: Position, n: int, i: int)
    requires
        0 <= n <= 4096,
        0 <= i < legal_upto(p, n).len(),
    ensures
        playable(p, legal_upto(p, n)[i]),
    decreases n,
{
    if n > 0 {
        let k = legal_upto(p, n - 1).len();
        if i < k {
            lemma_upto_playable(p, n - 1, i);
        } else {
            lemma_between_playable(p, (n - 1) / 64, (n - 1) % 64, i - k);
        }
    }
}

/// Every legal move can be played.
pub proof fn lemma_legal_playable(p: Position)
    ensures
        forall|i: int| 0 <= i < legal(p).len() ==> playable(p, #[trigger] legal(p)[i]),
{
    reveal(legal);
    assert forall|i: int| 0 <= i < legal(p).len() implies playable(p, #[trigger] legal(p)[i]) by {
        lemma_upto_playable(p, 4096, i);
    }
}

proof fn lemma_forcing_in(moves: Seq<Move>, n: int, i: int) -> (j: int)
    requires
        0 <= n <= moves.len(),
        0 <= i < forcing_upto(moves, n).len(),
    ensures
        0 <= j < n,
        moves[j] == forcing_upto(moves, n)[i],
    decreases n,
{
    if moves[n - 1].quiet() {
        lemma_forcing_in(moves, n - 1, i)
    } else if i < forcing_upto(moves, n - 1).len() {
        lemma_forcing_in(moves, n - 1, i)
    } else {
        n - 1
    }
}

/// Every legal capture or promotion is a legal move, and can be played.
pub proof fn lemma_caps_playable(p: Position)
    ensures
        forall|i: int|
            0 <= i < legal_caps(p).len() ==> playable(p, #[trigger] legal_caps(p)[i]) && legal(
                p,
            ).contains(legal_caps(p)[i]),
{
    reveal(legal_caps);
    lemma_legal_playable(p);
    assert forall|i: int| 0 <= i < legal_caps(p).len() implies playable(
        p,
        #[trigger] legal_caps(p)[i],
    ) && legal(p).contains(legal_caps(p)[i]) by {
        let j = lemma_forcing_in(legal(p), legal(p).len() as int, i);
    }
}

/// Two moves that differ in a square or in the piece promoted to.
pub open spec fn differ(a: Move, b: Move) -> bool {
    a.from != b.from || a.to != b.to || a.promotion != b.promotion
}

pub open spec fn told_apart(moves: Seq<Move>) -> bool {
    forall|i: int, j: int|
        0 <= i < j < moves.len() ==> differ(#[trigger] moves[i], #[trigger] moves[j])
}

proof fn lemma_arrives_distinct(p: Position, from: int, to: int, flag: MoveFlag)
    ensures
        told_apart(pawn_arrives(p, from, to, flag)),
        forall|i: int|
            0 <= i < pawn_arrives(p, from, to, flag).len() ==> (#[trigger] pawn_arrives(
                p,
                from,
                to,
                flag,
            )[i]).from == from as u8 && pawn_arrives(p, from, to, flag)[i].to == to as u8,
{
    let q = kept(p, promoting(from, to, flag, PieceType::Queen));
    let r = kept(p, promoting(from, to, flag, PieceType::Rook));
    let b = kept(p, promoting(from, to, flag, PieceType::Bishop));
    let n = kept(p, promoting(from, to, flag, PieceType::Knight));
    assert(told_apart(q + r));
    assert(told_apart(q + r + b));
    assert(told_apart(q + r + b + n));
}

proof fn lemma_between_distinct(p: Position, from: int, to: int)
    requires
        0 <= from < 64,
        0 <= to < 64,
    ensures
        told_apart(between(p, from, to)),
        forall|i: int|
            0 <= i < between(p, from, to).len() ==> (#[trigger] between(p, from, to)[i]).from
                == from && between(p, from, to)[i].to == to,
{
    lemma_arrives_distinct(p, from, to, MoveFlag::Capture);
    lemma_arrives_distinct(p, from, to, MoveFlag::Quiet);
}

proof fn lemma_upto_distinct(p: Position, n: int)
    requires
        0 <= n <= 4096,
    ensures
        told_apart(legal_upto(p, n)),
        forall|i: int|
            0 <= i < legal_upto(p, n).len() ==> (#[trigger] legal_upto(p, n)[i]).from * 64
                + legal_upto(p, n)[i].to < n,
    decreases n,
{
    if n > 0 {
        lemma_upto_distinct(p, n - 1);
        let from = (n - 1) / 64;
        let to = (n - 1) % 64;
        lemma_between_distinct(p, from, to);
        let a = legal_upto(p, n - 1);
        let b = between(p, from, to);
        assert(legal_upto(p, n) == a + b);
        assert(from * 64 + to == n - 1);
        assert forall|i: int, j: int|
            0 <= i < j < (a + b).len() implies differ(#[trigger] (a + b)[i], #[trigger] (a + b)[j]) by {
            if j >= a.len() && i < a.len() {
                assert((a + b)[j] == b[j - a.len()]);
                assert((a + b)[i] == a[i]);
            } else if j < a.len() {
                assert(differ(a[i], a[j]));
            } else {
                assert(differ(b[i - a.len()], b[j - a.len()]));
            }
        }
    }
}

/// No legal move is listed twice, and two legal moves differ in a square or in
/// the piece promoted to.
pub proof fn law_legal_moves_distinct(p: Position)
    ensures
        legal(p).no_duplicates(),
        told_apart(legal(p)),
{
    reveal(legal);
    lemma_upto_distinct(p, 4096);
    assert forall|i: int, j: int|
        0 <= i < legal(p).len() && 0 <= j < legal(p).len() && i != j implies legal(p)[i] != legal(
        p,
    )[j] by {
        if i < j {
            assert(differ(legal(p)[i], legal(p)[j]));
        } else {
            assert(differ(legal(p)[j], legal(p)[i]));
        }
    }
}

proof fn lemma_upto_count(p: Position, n: int)
    requires
        0 <= n <= 4096,
    ensures
        legal_upto(p, n).len() <= 4 * n,
    decreases n,
{
    if n > 0 {
        lemma_upto_count(p, n - 1);
    }
}

/// A pair of squares carries at most four moves.
pub proof fn lemma_legal_count(p: Position)
    ensures
        legal(p).len() <= 16384,
{
    reveal(legal);
    lemma_upto_count(p, 4096);
}

}
