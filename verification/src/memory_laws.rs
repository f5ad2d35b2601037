//! What holds of exchanges, of the table and of the order moves are tried in.
use vstd::prelude::*;
use crate::bitboard::{count_s, lemma_count_range, lemma_count_update, without_bit};
use crate::lore::{capt_score_s, history_s, LoreView, Slots};
use crate::moves::{Move, MoveFlag};
use crate::position::{kind_s, lands_s, Placement, Position};
use crate::rank::{early_bar, order_s, worth_at};
use crate::see::{
    attacker_from, exchange, lemma_attacker, occ_lifted, prize, see_ge_s, see_s, takes,
};
use crate::tt::{
    cleared, next_age, probe_s, slot_of, store_eval_s, store_s, Bound, Table,
};
use crate::types::{Color, PieceType};

verus! {

// ---------------------------------------------------------------------------
// Exchanges
// ---------------------------------------------------------------------------
/// Pieces are worth more the stronger they are: a pawn a hundred, a minor piece
/// more than three pawns, a rook less than two minor pieces, a queen less than two
/// rooks, and the king more than everything else together.
pub proof fn law_worth_of_pieces()
    ensures
        PieceType::Pawn.worth() == 100,
        3 * PieceType::Pawn.worth() < PieceType::Knight.worth() < PieceType::Bishop.worth()
            < PieceType::Rook.worth() < PieceType::Queen.worth(),
        PieceType::Rook.worth() < 2 * PieceType::Knight.worth(),
        PieceType::Queen.worth() < 2 * PieceType::Rook.worth(),
        PieceType::King.worth() > 9 * PieceType::Queen.worth() + 2 * PieceType::Rook.worth() + 2
            * PieceType::Bishop.worth() + 2 * PieceType::Knight.worth(),
{
}

/// The piece a side takes with is its least valuable one that can: no piece of a
/// lesser kind attacks the square.
pub proof fn law_least_valuable_takes(
    pl: Placement,
    occ: u64,
    c: Color,
    s: int,
    start: int,
    kind: int,
    from: int,
)
    requires
        0 <= start <= 384,
        0 <= kind < 6,
        0 <= from < 64,
        kind * 64 + from >= start,
    ensures
        ({
            let a = attacker_from(pl, occ, c, s, start);
            &&& a < 384 ==> takes(pl, occ, c, a / 64, a % 64, s)
            &&& takes(pl, occ, c, kind, from, s) ==> a <= kind * 64 + from
            &&& start == 0 && takes(pl, occ, c, kind, from, s) ==> PieceType::at(a / 64).worth()
                <= PieceType::at(kind).worth()
        }),
    decreases 384 - start,
{
    lemma_attacker(pl, occ, c, s, start);
    assert((kind * 64 + from) / 64 == kind && (kind * 64 + from) % 64 == from);
    if start < 384 && !takes(pl, occ, c, start / 64, start % 64, s) {
        if kind * 64 + from > start {
            law_least_valuable_takes(pl, occ, c, s, start + 1, kind, from);
        } else {
            let b = attacker_from(pl, occ, c, s, start + 1);
            if start + 1 < 384 {
                law_least_valuable_takes(
                    pl,
                    occ,
                    c,
                    s,
                    start + 1,
                    (start + 1) / 64,
                    (start + 1) % 64,
                );
            }
        }
    }
    let a = attacker_from(pl, occ, c, s, start);
    if start == 0 && takes(pl, occ, c, kind, from, s) {
        assert(a / 64 <= kind);
        lemma_worth_grows(a / 64, kind);
    }
}

proof fn lemma_worth_grows(a: int, b: int)
    requires
        0 <= a <= b < 6,
    ensures
        PieceType::at(a).worth() <= PieceType::at(b).worth(),
{
}

/// Starting to take on a square never loses, and never wins more than what
/// stands there: either side may stop.
pub proof fn law_exchange_is_optional(
    pl: Placement,
    occ: u64,
    s: int,
    side: Color,
    victim: int,
)
    requires
        victim >= 0,
    ensures
        0 <= exchange(pl, occ, s, side, victim) <= victim,
    decreases count_s(occ),
{
    let a = attacker_from(pl, occ, side, s, 0);
    if a < 384 {
        lemma_attacker(pl, occ, side, s, 0);
        lemma_count_update(occ, a % 64, 64);
        lemma_count_range(without_bit(occ, a % 64), 64);
        law_exchange_is_optional(
            pl,
            without_bit(occ, a % 64),
            s,
            side.other(),
            PieceType::at(a / 64).worth(),
        );
    }
}

/// A move is worth at most what it takes, and at least that less the piece it
/// puts on the square.
pub proof fn law_exchange_within(p: Position, mv: Move)
    ensures
        prize(p, mv) - lands_s(p, mv).worth() <= see_s(p, mv) <= prize(p, mv),
{
    law_exchange_is_optional(
        p.pieces,
        occ_lifted(p, mv),
        mv.to as int,
        p.side.other(),
        lands_s(p, mv).worth(),
    );
}

/// No piece of this side can take on the square.
pub open spec fn out_of_reach(pl: Placement, occ: u64, c: Color, s: int) -> bool {
    forall|kind: int, from: int|
        0 <= kind < 6 && 0 <= from < 64 ==> !#[trigger] takes(pl, occ, c, kind, from, s)
}

proof fn lemma_out_of_reach(pl: Placement, occ: u64, c: Color, s: int, n: int)
    requires
        out_of_reach(pl, occ, c, s),
        0 <= n <= 384,
    ensures
        attacker_from(pl, occ, c, s, n) == 384,
    decreases 384 - n,
{
    if n < 384 {
        assert(!takes(pl, occ, c, n / 64, n % 64, s));
        lemma_out_of_reach(pl, occ, c, s, n + 1);
    }
}

/// On a square that nobody defends a move is worth what it takes; where one
/// piece defends it and nobody supports the move, it costs the piece that moved.
pub proof fn law_defended_or_not(p: Position, mv: Move)
    ensures
        ({
            let occ = occ_lifted(p, mv);
            let a = attacker_from(p.pieces, occ, p.side.other(), mv.to as int, 0);
            &&& out_of_reach(p.pieces, occ, p.side.other(), mv.to as int) ==> see_s(p, mv) == prize(
                p,
                mv,
            )
            &&& a < 384 && out_of_reach(
                p.pieces,
                without_bit(occ, a % 64),
                p.side,
                mv.to as int,
            ) ==> see_s(p, mv) == prize(p, mv) - lands_s(p, mv).worth()
        }),
{
    let occ = occ_lifted(p, mv);
    let them = p.side.other();
    let s = mv.to as int;
    if out_of_reach(p.pieces, occ, them, s) {
        lemma_out_of_reach(p.pieces, occ, them, s, 0);
    }
    let a = attacker_from(p.pieces, occ, them, s, 0);
    if a < 384 && out_of_reach(p.pieces, without_bit(occ, a % 64), p.side, s) {
        lemma_out_of_reach(p.pieces, without_bit(occ, a % 64), p.side, s, 0);
        assert(them.other() == p.side);
        assert(exchange(
            p.pieces,
            without_bit(occ, a % 64),
            s,
            p.side,
            PieceType::at(a / 64).worth(),
        ) == 0);
        assert(lands_s(p, mv).worth() >= 0);
    }
}

/// What a move takes at once: the piece on its square, a pawn taken in passing,
/// and the difference a promotion makes; a quiet move takes nothing.
pub proof fn law_what_a_move_takes(p: Position, mv: Move)
    ensures
        mv.flag == MoveFlag::EnPassant && mv.promotion is None ==> prize(p, mv) == 100,
        mv.flag != MoveFlag::EnPassant && mv.promotion is None && kind_s(
            p.pieces[p.them()],
            mv.to as int,
        ) is None ==> prize(p, mv) == 0,
        mv.flag != MoveFlag::EnPassant && mv.promotion is None ==> (kind_s(
            p.pieces[p.them()],
            mv.to as int,
        ) matches Some(pt) ==> prize(p, mv) == pt.worth()),
        mv.promotion matches Some(pt) ==> prize(p, mv) == prize(
            p,
            Move { promotion: None, ..mv },
        ) + pt.worth() - 100,
        forall|bar: int| #[trigger] see_ge_s(p, mv, bar) <==> see_s(p, mv) >= bar,
{
    reveal(see_ge_s);
}

// ---------------------------------------------------------------------------
// The table
// ---------------------------------------------------------------------------
/// Storing under one key disturbs nothing kept in another slot.
pub proof fn law_other_slots_stay(
    t: Table,
    hash: u64,
    other: u64,
    depth: int,
    score: int,
    bound: Bound,
    best: Option<Move>,
    pv: bool,
    static_eval: i16,
)
    requires
        t.slots.len() > 0,
        slot_of(t, other) != slot_of(t, hash),
    ensures
        probe_s(store_s(t, hash, depth, score, bound, best, pv, static_eval), other) == probe_s(
            t,
            other,
        ),
        probe_s(store_eval_s(t, hash, static_eval), other) == probe_s(t, other),
{
    reveal(store_s);
    reveal(store_eval_s);
}

/// A result of this search for another position gives way only to one that is
/// at least as deep; one left over from an earlier search always gives way; an
/// evaluation alone takes the place of neither of this search.
pub proof fn law_who_gives_way(
    t: Table,
    hash: u64,
    depth: int,
    score: int,
    bound: Bound,
    best: Option<Move>,
    pv: bool,
    static_eval: i16,
)
    requires
        t.slots.len() > 0,
        i32::MIN <= depth <= i32::MAX,
    ensures
        t.slots[slot_of(t, hash)] matches Some(o) ==> {
            let after = store_s(t, hash, depth, score, bound, best, pv, static_eval);
            let noted = store_eval_s(t, hash, static_eval);
            &&& o.key != hash && o.age == t.age && depth < o.depth ==> probe_s(after, o.key)
                == probe_s(t, o.key) && probe_s(after, hash) is None
            &&& o.key != hash && (o.age != t.age || depth >= o.depth) ==> probe_s(after, hash)
                is Some && probe_s(after, o.key) is None || slot_of(t, o.key) != slot_of(t, hash)
            &&& o.key != hash && o.age == t.age ==> noted == t
            &&& o.key != hash && o.age != t.age ==> (probe_s(noted, hash) matches Some(e)
                && e.static_eval == static_eval && e.bound == Bound::NoBound && e.best is None)
            &&& o.key == hash && best is None ==> (probe_s(after, hash) matches Some(e) && e.best
                == o.best)
            &&& o.key == hash ==> (probe_s(noted, hash) matches Some(e) && e.static_eval
                == static_eval && e.score == o.score && e.bound == o.bound && e.depth == o.depth
                && e.best == o.best && e.pv == o.pv && e.age == o.age)
        },
        t.slots[slot_of(t, hash)] is None ==> {
            let noted = store_eval_s(t, hash, static_eval);
            &&& probe_s(noted, hash) matches Some(e)
            &&& e.static_eval == static_eval && e.bound == Bound::NoBound && e.best is None
        },
{
    reveal(store_s);
    reveal(store_eval_s);
}

/// A new search keeps everything that is stored and makes all of it old; a
/// cleared table knows nothing.
pub proof fn law_new_search_keeps_the_table(t: Table, hash: u64)
    requires
        t.slots.len() > 0,
    ensures
        probe_s(next_age(t), hash) == probe_s(t, hash),
        next_age(t).age != t.age,
        t.age < 255 ==> next_age(t).age == t.age + 1,
        t.age == 255 ==> next_age(t).age == 0,
        probe_s(cleared(t), hash) is None,
        cleared(t).slots.len() == t.slots.len(),
{
}

/// Two positions are never taken for each other: what is found carries the key
/// it was asked for.
pub proof fn law_found_is_asked_for(t: Table, hash: u64)
    ensures
        probe_s(t, hash) matches Some(e) ==> e.key == hash,
{
}

// ---------------------------------------------------------------------------
// The order moves are tried in
// ---------------------------------------------------------------------------
/// Of two captures that both pass the exchange test, or both fail it, that the
/// table does not name and that past results say the same of: with the same piece
/// the more valuable victim comes first, and of the same victim the less valuable
/// piece.
pub proof fn law_victims_before_attackers(
    l: LoreView,
    on: bool,
    p: Position,
    a: Move,
    b: Move,
    tt_move: Option<Move>,
    ply: int,
    depth: int,
    slots: Slots,
)
    requires
        a.captures() && b.captures(),
        Some(a) != tt_move && Some(b) != tt_move,
        see_ge_s(p, a, early_bar(depth)) == see_ge_s(p, b, early_bar(depth)),
        capt_score_s(l, on, p, a) == capt_score_s(l, on, p, b),
    ensures
        ({
            let first = order_s(l, on, p, a, tt_move, ply, depth, slots);
            let second = order_s(l, on, p, b, tt_move, ply, depth, slots);
            let va = if a.flag == MoveFlag::EnPassant { 100 } else { worth_at(p, a.to as int) };
            let vb = if b.flag == MoveFlag::EnPassant { 100 } else { worth_at(p, b.to as int) };
            let wa = worth_at(p, a.from as int);
            let wb = worth_at(p, b.from as int);
            &&& wa == wb && va > vb ==> first > second
            &&& va == vb && wa < wb ==> first > second
            &&& va == vb && wa == wb ==> first == second
            &&& wa <= 1600 && wb <= 1600 && va >= vb + 100 ==> first > second
        }),
{
    reveal(order_s);
}

/// Of two captures alike otherwise, the one with the better past results comes
/// no later, and first where they differ enough.
pub proof fn law_past_results_count(
    l: LoreView,
    on: bool,
    p: Position,
    a: Move,
    b: Move,
    tt_move: Option<Move>,
    ply: int,
    depth: int,
    slots: Slots,
)
    requires
        a.flag == MoveFlag::Capture && b.flag == MoveFlag::Capture,
        Some(a) != tt_move && Some(b) != tt_move,
        see_ge_s(p, a, early_bar(depth)) == see_ge_s(p, b, early_bar(depth)),
        worth_at(p, a.to as int) == worth_at(p, b.to as int),
        worth_at(p, a.from as int) == worth_at(p, b.from as int),
    ensures
        ({
            let first = order_s(l, on, p, a, tt_move, ply, depth, slots);
            let second = order_s(l, on, p, b, tt_move, ply, depth, slots);
            let ca = capt_score_s(l, on, p, a);
            let cb = capt_score_s(l, on, p, b);
            &&& ca >= cb ==> first >= second
            &&& ca >= cb + 32 ==> first > second
        }),
{
    reveal(order_s);
}

/// Of two quiet moves that the table does not name and that are no killers, the
/// one the histories like better comes first; of two killers the one that came
/// last.
pub proof fn law_quiet_moves_by_history(
    l: LoreView,
    on: bool,
    p: Position,
    a: Move,
    b: Move,
    tt_move: Option<Move>,
    ply: int,
    depth: int,
    slots: Slots,
)
    requires
        a.quiet() && b.quiet(),
        Some(a) != tt_move && Some(b) != tt_move,
    ensures
        ({
            let first = order_s(l, on, p, a, tt_move, ply, depth, slots);
            let second = order_s(l, on, p, b, tt_move, ply, depth, slots);
            let k0 = l.killers[ply * 3];
            let k1 = l.killers[ply * 3 + 1];
            let k2 = l.killers[ply * 3 + 2];
            &&& k0 != Some(a) && k1 != Some(a) && k2 != Some(a) && k0 != Some(b) && k1 != Some(b)
                && k2 != Some(b) && history_s(l, p, a, slots) > history_s(l, p, b, slots) ==> first
                > second
            &&& a != b && k0 == Some(a) && (k1 == Some(b) || k2 == Some(b)) ==> first > second
            &&& a != b && k1 == Some(a) && k0 != Some(a) && k0 != Some(b) && k2 == Some(b) ==> first
                > second
        }),
{
    reveal(order_s);
}

/// How much a capture may lose and still be tried early: nothing at one ply, half
/// a pawn more for every ply after, and never more than two and a half.
pub proof fn law_room_to_find_out(depth: int)
    requires
        depth >= 1,
    ensures
        early_bar(1) == 0,
        -250 <= early_bar(depth) <= 0,
        early_bar(depth + 1) <= early_bar(depth),
        depth < 6 ==> early_bar(depth + 1) == early_bar(depth) - 50,
        depth >= 6 ==> early_bar(depth) == -250,
{
}

}
