//! What holds of the rules of the game.
use vstd::prelude::*;
use crate::bitboard::{bit, lemma_bit_update};
use crate::movegen::{between, legal, legal_upto, safe};
use crate::moves::{Move, MoveFlag};
use crate::position::{
    after, after_null, checked_s, clear_line, df_s, dr_s, kind_s, lemma_kind, lemma_occ_has,
    lemma_with_set, mover_s, occ_s, on, placement_after, reaches, slides, Position,
};
use crate::score::eval_s;
use crate::types::{Color, PieceType};

verus! {

// ---------------------------------------------------------------------------
// Legal moves
// ---------------------------------------------------------------------------
/// What every legal move is: of a piece of the side to move, to a square that
/// holds none of its own and not the other king, and safe; a capture where an
/// enemy stands on the square or a pawn is taken in passing, and nowhere else.
pub open spec fn lawful(p: Position, m: Move) -> bool {
    &&& !checked_s(placement_after(p, m), p.side)
    &&& kind_s(p.pieces[p.us()], m.from as int) is Some
    &&& kind_s(p.pieces[p.us()], m.to as int) is None
    &&& !bit(p.pieces[p.them()][5], m.to as int)
    &&& m.from != m.to
    &&& m.flag == MoveFlag::Capture <==> kind_s(p.pieces[p.them()], m.to as int) is Some
    &&& m.promotion is Some ==> kind_s(p.pieces[p.us()], m.from as int) == Some(PieceType::Pawn)
        && m.to as int / 8 == (if p.side == Color::White { 7int } else { 0 })
    &&& m.promotion != Some(PieceType::King) && m.promotion != Some(PieceType::Pawn)
    &&& kind_s(p.pieces[p.us()], m.from as int) == Some(PieceType::Pawn) && m.to as int / 8 == (
    if p.side == Color::White { 7int } else { 0 }) && m.flag != MoveFlag::EnPassant ==> m.promotion
        is Some
}

proof fn lemma_between_lawful(p: Position, from: int, to: int, i: int)
    requires
        0 <= from < 64,
        0 <= to < 64,
        0 <= i < between(p, from, to).len(),
    ensures
        lawful(p, between(p, from, to)[i]),
        between(p, from, to)[i].from == from,
        between(p, from, to)[i].to == to,
{
    let m = between(p, from, to)[i];
    if let Some(pt) = kind_s(p.pieces[p.them()], to) {
        lemma_kind(p.pieces[p.them()], to, 0);
        lemma_occ_has(p.pieces, p.them(), pt.index(), to, 12);
    }
    assert(!checked_s(placement_after(p, m), p.side));
    assert(m.flag == MoveFlag::Capture <==> kind_s(p.pieces[p.them()], m.to as int) is Some);
}

proof fn lemma_upto_lawful(p: Position, n: int, i: int)
    requires
        0 <= n <= 4096,
        0 <= i < legal_upto(p, n).len(),
    ensures
        lawful(p, legal_upto(p, n)[i]),
    decreases n,
{
    if n > 0 {
        let before = legal_upto(p, n - 1);
        if i < before.len() {
            lemma_upto_lawful(p, n - 1, i);
        } else {
            lemma_between_lawful(p, (n - 1) / 64, (n - 1) % 64, i - before.len());
        }
    }
}

/// No legal move leaves its own king in check, takes its own piece or a king,
/// or is filed as anything but what it is; pawns promote on the last rank and
/// nowhere else, to a knight, a bishop, a rook or a queen.
pub proof fn law_legal_moves_are_lawful(p: Position, i: int)
    requires
        0 <= i < legal(p).len(),
    ensures
        lawful(p, legal(p)[i]),
        !checked_s(after(p, legal(p)[i]).pieces, after(p, legal(p)[i]).side.other()),
{
    reveal(legal);
    reveal(after);
    lemma_upto_lawful(p, 4096, i);
}

proof fn lemma_upto_has(p: Position, n: int, from: int, to: int, i: int)
    requires
        0 <= n <= 4096,
        0 <= from < 64,
        0 <= to < 64,
        from * 64 + to < n,
        0 <= i < between(p, from, to).len(),
    ensures
        legal_upto(p, n).contains(between(p, from, to)[i]),
    decreases n,
{
    let before = legal_upto(p, n - 1);
    let last = between(p, (n - 1) / 64, (n - 1) % 64);
    if from * 64 + to < n - 1 {
        lemma_upto_has(p, n - 1, from, to, i);
        let k = choose|k: int|
            0 <= k < before.len() && before[k] == between(p, from, to)[i];
        assert((before + last)[k] == before[k]);
    } else {
        assert((n - 1) / 64 == from && (n - 1) % 64 == to);
        assert((before + last)[before.len() + i] == last[i]);
    }
}

/// Every move a piece can make is found: one other than a pawn that reaches a
/// square with nothing of its own and no king on it may go there, unless that
/// leaves its king to be taken.
pub proof fn law_no_move_is_missed(p: Position, from: int, to: int, pt: PieceType)
    requires
        0 <= from < 64,
        0 <= to < 64,
        from != to,
        kind_s(p.pieces[p.us()], from) == Some(pt),
        pt != PieceType::Pawn,
        kind_s(p.pieces[p.us()], to) is None,
        !bit(p.pieces[p.them()][5], to),
        reaches(occ_s(p.pieces), pt, p.side, from, to),
    ensures
        ({
            let m = Move {
                from: from as u8,
                to: to as u8,
                flag: if kind_s(p.pieces[p.them()], to) is Some {
                    MoveFlag::Capture
                } else {
                    MoveFlag::Quiet
                },
                promotion: None,
            };
            !checked_s(placement_after(p, m), p.side) ==> legal(p).contains(m)
        }),
{
    reveal(legal);
    let m = Move {
        from: from as u8,
        to: to as u8,
        flag: if kind_s(p.pieces[p.them()], to) is Some {
            MoveFlag::Capture
        } else {
            MoveFlag::Quiet
        },
        promotion: None,
    };
    if !checked_s(placement_after(p, m), p.side) {
        assert(safe(p, m));
        assert(between(p, from, to) =~= seq![m]);
        lemma_upto_has(p, 4096, from, to, 0);
        assert(between(p, from, to)[0] == m);
    }
}

// ---------------------------------------------------------------------------
// Making a move
// ---------------------------------------------------------------------------
/// A move hands the turn over and counts: the ply counter starts again with a
/// capture or a pawn move and goes up by one otherwise, the move counter goes up
/// after Black; a square to be taken on in passing is left by a double step
/// alone, and it is the one stepped over.
pub proof fn law_a_move_counts(p: Position, mv: Move)
    requires
        mv.wf(),
        p.halfmove < 65535,
        p.fullmove < 65535,
    ensures
        ({
            let q = after(p, mv);
            let resets = mv.flag == MoveFlag::Capture || mv.flag == MoveFlag::EnPassant || mover_s(
                p,
                mv,
            ) == PieceType::Pawn;
            &&& q.side != p.side
            &&& resets ==> q.halfmove == 0
            &&& !resets ==> q.halfmove == p.halfmove + 1
            &&& p.side == Color::White ==> q.fullmove == p.fullmove
            &&& p.side == Color::Black ==> q.fullmove == p.fullmove + 1
            &&& mv.flag != MoveFlag::DoublePush ==> q.ep is None
            &&& mv.flag == MoveFlag::DoublePush ==> (q.ep matches Some(s) && 2 * s <= mv.from
                + mv.to <= 2 * s + 1)
        }),
{
    reveal(after);
}

/// Castling rights are only ever lost: each by a move from or to its king's
/// square or its rook's, and by no other.
pub proof fn law_castling_rights_are_lost(p: Position, mv: Move)
    ensures
        ({
            let q = after(p, mv).castling;
            let touches = |s: int| mv.from == s || mv.to == s;
            &&& q[0] <==> p.castling[0] && !touches(4) && !touches(7)
            &&& q[1] <==> p.castling[1] && !touches(4) && !touches(0)
            &&& q[2] <==> p.castling[2] && !touches(60) && !touches(63)
            &&& q[3] <==> p.castling[3] && !touches(60) && !touches(56)
        }),
{
    reveal(after);
}

/// A pass hands the turn over and changes nothing on the board; two passes
/// restore the side to move.
pub proof fn law_a_pass_moves_nothing(p: Position)
    ensures
        ({
            let q = after_null(p);
            &&& q.pieces == p.pieces && q.castling == p.castling
            &&& q.side != p.side && q.ep is None
            &&& after_null(q).side == p.side && after_null(q).pieces == p.pieces
        }),
{
    reveal(after_null);
}

/// After a move that is neither castling nor a capture in passing: what moved
/// stands where it went, as what it became; nothing else of its side has moved;
/// and of the other side exactly what stood there is gone.
pub proof fn law_a_move_on_the_board(p: Position, mv: Move, c: int, t: int, s: int)
    requires
        mv.wf(),
        mv.from != mv.to,
        mv.flag != MoveFlag::KingCastle && mv.flag != MoveFlag::QueenCastle && mv.flag
            != MoveFlag::EnPassant,
        0 <= c < 2,
        0 <= t < 6,
        0 <= s < 64,
    ensures
        ({
            let q = after(p, mv).pieces;
            let was = on(p.pieces, c, t, s);
            let lands = match mv.promotion {
                Some(pt) => pt.index(),
                None => mover_s(p, mv).index(),
            };
            &&& c == p.us() && t == lands && s == mv.to ==> on(q, c, t, s)
            &&& c == p.us() && t == mover_s(p, mv).index() && s == mv.from ==> !on(q, c, t, s)
            &&& c == p.us() && s != mv.from && s != mv.to ==> on(q, c, t, s) == was
            &&& c != p.us() && s == mv.to ==> !on(q, c, t, s)
            &&& c != p.us() && s != mv.to ==> on(q, c, t, s) == was
        }),
{
    reveal(after);
    let us = p.us();
    let them = p.them();
    let kind = mover_s(p, mv).index();
    let lands = crate::position::lands_s(p, mv).index();
    let from = mv.from as int;
    let to = mv.to as int;
    let a = crate::position::removed(p.pieces, us, kind, from);
    lemma_with_set(p.pieces, us, kind, crate::bitboard::without_bit(p.pieces[us][kind], from));
    lemma_bit_update(p.pieces[us][kind], from, s);
    let b = crate::position::lifted(a, them, to);
    lemma_lifted_square(a, them, to, 6, c, t, s);
    lemma_lifted_square(a, them, to, 6, us, lands, s);
    lemma_with_set(b, us, lands, crate::bitboard::with_bit(b[us][lands], to));
    lemma_bit_update(b[us][lands], to, s);
}

proof fn lemma_lifted_square(
    pl: crate::position::Placement,
    side: int,
    sq: int,
    n: int,
    c: int,
    t: int,
    s: int,
)
    requires
        0 <= side < 2,
        0 <= sq < 64,
        0 <= n <= 6,
        0 <= c < 2,
        0 <= t < 6,
        0 <= s < 64,
    ensures
        on(crate::position::lifted_upto(pl, side, sq, n), c, t, s) == (on(pl, c, t, s) && !(c
            == side && t < n && s == sq)),
    decreases n,
{
    if n > 0 {
        lemma_lifted_square(pl, side, sq, n - 1, c, t, s);
        let q = crate::position::lifted_upto(pl, side, sq, n - 1);
        lemma_with_set(q, side, n - 1, crate::bitboard::without_bit(q[side][n - 1], sq));
        lemma_bit_update(q[side][n - 1], sq, s);
    }
}

// ---------------------------------------------------------------------------
// Attacks
// ---------------------------------------------------------------------------
proof fn lemma_line_back(occ: u64, from: int, step: int, n: int)
    requires
        clear_line(occ, from, step, n),
    ensures
        clear_line(occ, from + n * step, -step, n),
{
    assert forall|k: int| 1 <= k < n implies !#[trigger] bit(
        occ,
        from + n * step + k * (-step),
    ) by {
        assert(from + n * step + k * (-step) == from + (n - k) * step) by (nonlinear_arith);
        assert(!bit(occ, from + (n - k) * step));
    }
}

proof fn lemma_slides_back(occ: u64, straight: bool, a: int, b: int)
    requires
        0 <= a < 64,
        0 <= b < 64,
        slides(occ, straight, a, b),
    ensures
        slides(occ, straight, b, a),
{
    let df = df_s(a, b);
    let dr = dr_s(a, b);
    let n = crate::num::max2(crate::num::abs1(df), crate::num::abs1(dr));
    let sf = crate::position::sgn(df);
    let sr = crate::position::sgn(dr);
    let step = 8 * sr + sf;
    assert(n * sf == df && n * sr == dr) by (nonlinear_arith)
        requires
            straight ==> df == 0 && dr != 0 || df != 0 && dr == 0,
            !straight ==> df != 0 && (df == dr || df == -dr),
            n == (if df >= 0 { df } else { -df }) || n == (if dr >= 0 { dr } else { -dr }),
            n >= df && n >= -df && n >= dr && n >= -dr,
            df > 0 ==> sf == 1,
            df < 0 ==> sf == -1,
            df == 0 ==> sf == 0,
            dr > 0 ==> sr == 1,
            dr < 0 ==> sr == -1,
            dr == 0 ==> sr == 0,
    ;
    assert(n * step == 8 * (n * sr) + n * sf) by (nonlinear_arith)
        requires
            step == 8 * sr + sf,
    ;
    assert(b == a + n * step);
    lemma_line_back(occ, a, step, n);
}

/// A piece attacks back along the way it is attacked: every kind but the pawn
/// from either end of it, and a pawn where one of the other side attacks it.
pub proof fn law_attacks_go_both_ways(occ: u64, pt: PieceType, c: Color, a: int, b: int)
    requires
        0 <= a < 64,
        0 <= b < 64,
    ensures
        pt != PieceType::Pawn ==> reaches(occ, pt, c, a, b) == reaches(occ, pt, c.other(), b, a),
        reaches(occ, PieceType::Pawn, c, a, b) == reaches(
            occ,
            PieceType::Pawn,
            c.other(),
            b,
            a,
        ),
        reaches(occ, PieceType::Queen, c, a, b) == (reaches(occ, PieceType::Rook, c, a, b)
            || reaches(occ, PieceType::Bishop, c, a, b)),
        !(reaches(occ, PieceType::Rook, c, a, b) && reaches(occ, PieceType::Bishop, c, a, b)),
        reaches(occ, PieceType::Knight, c, a, b) ==> !reaches(occ, PieceType::Queen, c, a, b),
        reaches(occ, PieceType::King, c, a, b) ==> reaches(occ, PieceType::Queen, c, a, b),
        !reaches(occ, pt, c, a, a),
{
    if slides(occ, true, a, b) {
        lemma_slides_back(occ, true, a, b);
    }
    if slides(occ, false, a, b) {
        lemma_slides_back(occ, false, a, b);
    }
    if slides(occ, true, b, a) {
        lemma_slides_back(occ, true, b, a);
    }
    if slides(occ, false, b, a) {
        lemma_slides_back(occ, false, b, a);
    }
}

// ---------------------------------------------------------------------------
// The fifty move counter
// ---------------------------------------------------------------------------
/// A score fades evenly with the counter: so many two hundredths of it are left,
/// rounded towards nothing.
pub proof fn law_scores_fade_evenly(net: Option<crate::nnue::Weights>, p: Position)
    requires
        p.halfmove <= 100,
    ensures
        ({
            let raw = eval_s(net, p, false);
            let faded = eval_s(net, p, true);
            let left = raw * (200 - p.halfmove);
            &&& raw >= 0 ==> 200 * faded <= left < 200 * faded + 200
            &&& raw <= 0 ==> 200 * faded - 200 < left <= 200 * faded
        }),
{
    reveal(eval_s);
    let raw = eval_s(net, p, false);
    let k = 200 - p.halfmove;
    assert(raw >= 0 ==> raw * k >= 0) by (nonlinear_arith)
        requires
            k >= 0,
    ;
    assert(raw <= 0 ==> raw * k <= 0) by (nonlinear_arith)
        requires
            k >= 0,
    ;
}

}
