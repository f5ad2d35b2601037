//! What holds of everything the search remembers of moves and evaluations.
use vstd::prelude::*;
use crate::lore::{
    blank_lore, capt_at, capt_score_s, capture_credited, capture_pair, charged, cont_at,
    cont_bumped, cont_sum, corr_at, corr_slot, corr_sum, corrected_s, credited, cut_off,
    history_s, law_correction_learns, law_correction_slots, learned, main_at, slots_ok, LoreView,
    Slots,
};
use crate::moves::Move;
use crate::num::tdiv;
use crate::position::Position;
use crate::score::{
    capt_bonus_s, hist_bonus_s, hist_next, law_history_saturates, MATE_IN_MAX,
};

verus! {

// ---------------------------------------------------------------------------
// One entry
// ---------------------------------------------------------------------------
/// A bonus is always heard below the ceiling: credited, an entry rises, and
/// charged, it falls. What it falls by is what its opposite rises by.
pub proof fn law_every_bonus_is_heard(entry: int, bonus: int, max: int)
    requires
        0 < max,
        -max <= entry <= max,
        -max <= bonus <= max,
    ensures
        bonus > 0 && entry < max ==> hist_next(entry, bonus, max) > entry,
        bonus < 0 && entry > -max ==> hist_next(entry, bonus, max) < entry,
        hist_next(-entry, -bonus, max) == -hist_next(entry, bonus, max),
        bonus == 0 ==> hist_next(entry, bonus, max) == entry,
{
    let e = if entry >= 0 { entry } else { -entry };
    let b = if bonus >= 0 { bonus } else { -bonus };
    assert(0 <= e * b) by (nonlinear_arith)
        requires
            0 <= e,
            0 <= b,
    ;
    assert(entry * b == if entry >= 0 { e * b } else { -(e * b) }) by (nonlinear_arith)
        requires
            entry >= 0 ==> e == entry,
            entry < 0 ==> e == -entry,
    ;
    assert((-entry) * b == if entry >= 0 { -(e * b) } else { e * b }) by (nonlinear_arith)
        requires
            entry >= 0 ==> e == entry,
            entry < 0 ==> e == -entry,
    ;
    let q = (e * b) / max;
    assert(0 <= q && (e < max && b > 0 ==> q < b)) by (nonlinear_arith)
        requires
            q == (e * b) / max,
            0 <= e <= max,
            0 <= b,
            0 < max,
    ;
    if e * b == 0 {
        assert(q == 0) by (nonlinear_arith)
            requires
                q == (e * b) / max,
                e * b == 0,
                max > 0,
        ;
    }
    if bonus == 0 {
        assert(e * b == 0) by (nonlinear_arith)
            requires
                b == 0,
        ;
    }
}

/// A cutoff is worth two hundred a ply up to four thousand; a capture's six
/// hundred and eighty a ply, less two hundred and fifty, up to two thousand four
/// hundred; deeper is never worth less.
pub proof fn law_what_a_cutoff_is_worth(depth: int)
    requires
        depth >= 1,
    ensures
        depth <= 20 ==> hist_bonus_s(depth) == 200 * depth,
        depth >= 20 ==> hist_bonus_s(depth) == 4000,
        hist_bonus_s(depth) <= hist_bonus_s(depth + 1),
        depth <= 3 ==> capt_bonus_s(depth) == 680 * depth - 250,
        depth >= 4 ==> capt_bonus_s(depth) == 2400,
        capt_bonus_s(depth) <= capt_bonus_s(depth + 1),
        capt_bonus_s(0) == 0,
{
}

// ---------------------------------------------------------------------------
// Quiet moves
// ---------------------------------------------------------------------------
proof fn lemma_cont_places(k: int, j: int, a: int, b: int, pc: int, to: int)
    requires
        0 <= k < 3,
        0 <= j < 3,
        0 <= a < 384,
        0 <= b < 384,
        0 <= pc < 6,
        0 <= to < 64,
    ensures
        0 <= cont_at(k, a, pc, to) < 442_368,
        k != j ==> cont_at(k, a, pc, to) != cont_at(j, b, pc, to),
{
}

/// A quiet move that is credited is thought better of, one that is charged
/// worse, by the tables of the side to move; nothing changes in any entry of the
/// main table that belongs to another move, nor among the killers, the captures
/// or the corrections.
pub proof fn law_credit_is_heard(
    l: LoreView,
    p: Position,
    mv: Move,
    slots: Slots,
    bonus: int,
)
    requires
        l.wf(),
        slots_ok(slots),
        mv.wf(),
        mv.quiet(),
        -15_000 <= bonus <= 15_000,
    ensures
        ({
            let next = credited(l, p, mv, slots, bonus);
            let at = main_at(p.us(), mv.from as int, mv.to as int);
            let before = history_s(l, p, mv, slots);
            let after = history_s(next, p, mv, slots);
            &&& bonus >= 0 ==> after >= before
            &&& bonus <= 0 ==> after <= before
            &&& bonus > 0 && l.history[at] < 15_000 ==> after > before
            &&& bonus < 0 && l.history[at] > -15_000 ==> after < before
            &&& forall|i: int|
                0 <= i < 8192 && i != at ==> #[trigger] next.history[i] == l.history[i]
            &&& next.killers == l.killers && next.capthist == l.capthist && next.corr == l.corr
        }),
{
    reveal(credited);
    reveal(history_s);
    let at = main_at(p.us(), mv.from as int, mv.to as int);
    law_history_saturates(l.history[at] as int, bonus, 15_000);
    law_every_bonus_is_heard(l.history[at] as int, bonus, 15_000);
    if let Some((pt, c)) = p.piece_s(mv.from as int) {
        let pc = pt.index();
        let to = mv.to as int;
        reveal_with_fuel(cont_bumped, 4);
        reveal_with_fuel(cont_sum, 4);
        assert forall|k: int, i: int| 0 <= k < 3 && 0 <= i < 384 implies {
            let e = l.conthist[#[trigger] cont_at(k, i, pc, to)] as int;
            &&& -30_000 <= e <= 30_000
            &&& -30_000 <= hist_next(e, bonus, 30_000) <= 30_000
            &&& bonus >= 0 ==> hist_next(e, bonus, 30_000) >= e
            &&& bonus <= 0 ==> hist_next(e, bonus, 30_000) <= e
        } by {
            lemma_cont_places(k, k, i, i, pc, to);
            law_history_saturates(l.conthist[cont_at(k, i, pc, to)] as int, bonus, 30_000);
        }
        if let Some(i) = slots[0] {
            lemma_cont_places(0, 1, i as int, 0, pc, to);
            if let Some(j) = slots[1] {
                lemma_cont_places(0, 1, i as int, j as int, pc, to);
            }
            if let Some(j) = slots[2] {
                lemma_cont_places(0, 2, i as int, j as int, pc, to);
            }
        }
        if let Some(i) = slots[1] {
            lemma_cont_places(1, 0, i as int, 0, pc, to);
            if let Some(j) = slots[2] {
                lemma_cont_places(1, 2, i as int, j as int, pc, to);
            }
        }
        if let Some(i) = slots[2] {
            lemma_cont_places(2, 0, i as int, 0, pc, to);
        }
    }
}

/// The reply carries twice the weight of the earlier moves: what the tables think
/// of a move is the main entry, twice the first continuation and the others once,
/// and nothing for a slot that is empty.
pub proof fn law_what_history_adds_up(l: LoreView, p: Position, mv: Move, slots: Slots)
    requires
        mv.quiet(),
    ensures
        ({
            let main = l.history[main_at(p.us(), mv.from as int, mv.to as int)];
            let heard = history_s(l, p, mv, slots);
            &&& p.piece_s(mv.from as int) is None ==> heard == main
            &&& p.piece_s(mv.from as int) matches Some((pt, c)) ==> {
                let at = |k: int|
                    match slots[k] {
                        Some(i) => l.conthist[cont_at(k, i as int, pt.index(), mv.to as int)] as int,
                        None => 0,
                    };
                heard == main + 2 * at(0) + at(1) + at(2)
            }
        }),
{
    reveal(history_s);
    reveal_with_fuel(cont_sum, 4);
}

proof fn lemma_charged(
    l: LoreView,
    p: Position,
    mv: Move,
    slots: Slots,
    bonus: int,
    searched: Seq<Move>,
    n: int,
    at: int,
)
    requires
        within_main(l),
        0 <= bonus <= 15_000,
        0 <= n <= searched.len(),
        0 <= at < 8192,
        forall|i: int| 0 <= i < searched.len() ==> (#[trigger] searched[i]).wf(),
    ensures
        ({
            let next = charged(l, p, mv, slots, bonus, searched, n);
            &&& within_main(next)
            &&& next.history[at] <= l.history[at]
            &&& (forall|i: int|
                0 <= i < n && #[trigger] searched[i] != mv ==> main_at(
                    p.us(),
                    searched[i].from as int,
                    searched[i].to as int,
                ) != at) ==> next.history[at] == l.history[at]
            &&& (exists|i: int|
                0 <= i < n && #[trigger] searched[i] != mv && main_at(
                    p.us(),
                    searched[i].from as int,
                    searched[i].to as int,
                ) == at) && bonus > 0 && l.history[at] > -15_000 ==> next.history[at]
                < l.history[at]
            &&& next.killers == l.killers
        }),
    decreases n,
{
    if n > 0 {
        lemma_charged(l, p, mv, slots, bonus, searched, n - 1, at);
        let m = charged(l, p, mv, slots, bonus, searched, n - 1);
        let s = searched[n - 1];
        if s != mv {
            reveal(credited);
            let j = main_at(p.us(), s.from as int, s.to as int);
            assert(0 <= j < 8192);
            law_history_saturates(m.history[j] as int, -bonus, 15_000);
            law_every_bonus_is_heard(m.history[j] as int, -bonus, 15_000);
        }
    }
}

/// The main table is in range.
pub open spec fn within_main(l: LoreView) -> bool {
    &&& l.history.len() == 8192
    &&& forall|i: int| 0 <= i < 8192 ==> -15_000 <= #[trigger] l.history[i] <= 15_000
}

/// A quiet move that ends a node becomes a killer of its ply and its main entry
/// rises; every other quiet move searched before it falls.
pub proof fn law_cutoff_teaches(
    l: LoreView,
    p: Position,
    mv: Move,
    ply: int,
    depth: int,
    slots: Slots,
    searched: Seq<Move>,
    i: int,
)
    requires
        l.wf(),
        mv.wf(),
        0 <= ply < 128,
        depth >= 1,
        forall|j: int| 0 <= j < searched.len() ==> (#[trigger] searched[j]).wf(),
        forall|j: int|
            0 <= j < searched.len() && #[trigger] searched[j] != mv ==> searched[j].from != mv.from
                || searched[j].to != mv.to,
        0 <= i < searched.len(),
        searched[i] != mv,
    ensures
        ({
            let next = cut_off(l, p, mv, ply, depth, slots, searched);
            let at = main_at(p.us(), mv.from as int, mv.to as int);
            let j = main_at(p.us(), searched[i].from as int, searched[i].to as int);
            &&& next.killers[ply * 3] == Some(mv) || next.killers == l.killers
            &&& next.killers[ply * 3] == Some(mv) || next.killers[ply * 3 + 1] == Some(mv)
                || next.killers[ply * 3 + 2] == Some(mv)
            &&& l.history[at] < 15_000 ==> next.history[at] > l.history[at]
            &&& l.history[j] > -15_000 ==> next.history[j] < l.history[j]
        }),
{
    let bonus = hist_bonus_s(depth);
    let k = crate::lore::with_killer(l, ply, mv);
    let c = credited(k, p, mv, slots, bonus);
    let at = main_at(p.us(), mv.from as int, mv.to as int);
    let j = main_at(p.us(), searched[i].from as int, searched[i].to as int);
    reveal(credited);
    law_history_saturates(l.history[at] as int, bonus, 15_000);
    law_every_bonus_is_heard(l.history[at] as int, bonus, 15_000);
    assert(within_main(c));
    let n = searched.len() as int;
    lemma_charged(c, p, mv, slots, bonus, searched, n, at);
    lemma_charged(c, p, mv, slots, bonus, searched, n, j);
    assert forall|m: int| 0 <= m < n && #[trigger] searched[m] != mv implies main_at(
        p.us(),
        searched[m].from as int,
        searched[m].to as int,
    ) != at by {}
    assert(at != j);
}

// ---------------------------------------------------------------------------
// Captures
// ---------------------------------------------------------------------------
/// A capture that is credited is thought better of and one that is charged
/// worse, where the table is on; where it is off nothing is remembered and nothing
/// is said.
pub proof fn law_capture_credit_is_heard(
    l: LoreView,
    on: bool,
    p: Position,
    mv: Move,
    bonus: int,
)
    requires
        l.wf(),
        mv.wf(),
        -16_384 <= bonus <= 16_384,
    ensures
        ({
            let next = capture_credited(l, on, p, mv, bonus);
            let before = capt_score_s(l, on, p, mv);
            let after = capt_score_s(next, on, p, mv);
            &&& !on ==> next == l && before == 0
            &&& capture_pair(p, mv) is None ==> next == l && before == 0
            &&& on && capture_pair(p, mv) is Some ==> {
                &&& bonus > 0 && before < 16_384 ==> after > before
                &&& bonus < 0 && before > -16_384 ==> after < before
                &&& before == 0 ==> after == bonus
            }
            &&& next.history == l.history && next.killers == l.killers && next.conthist
                == l.conthist && next.corr == l.corr
        }),
{
    reveal(capture_credited);
    reveal(capt_score_s);
    if let Some((pc, v)) = capture_pair(p, mv) {
        let at = capt_at(pc, mv.to as int, v);
        assert(0 <= pc < 6 && 0 <= v < 6);
        assert(0 <= at < 2304);
        law_history_saturates(l.capthist[at] as int, bonus, 16_384);
        law_every_bonus_is_heard(l.capthist[at] as int, bonus, 16_384);
    }
}

// ---------------------------------------------------------------------------
// Corrections
// ---------------------------------------------------------------------------
/// What the five readings of a position add up to moves the evaluation the same
/// way, and nothing known leaves it alone; the reading of the pawns counts for
/// most, and no evaluation is corrected into a mate.
pub proof fn law_correction_moves_the_evaluation(
    l: LoreView,
    p: Position,
    raw: int,
    last: Option<(usize, usize)>,
    delta: u64,
)
    requires
        -MATE_IN_MAX < raw < MATE_IN_MAX,
    ensures
        ({
            let at = |k: int| l.corr[corr_at(k, p.us(), corr_slot(p, last, delta, k))] as int;
            let v = corrected_s(l, p, raw, last, delta);
            &&& -MATE_IN_MAX < v < MATE_IN_MAX
            &&& at(0) == 0 && at(1) == 0 && at(2) == 0 && at(3) == 0 && at(4) == 0 ==> v == raw
            &&& at(0) >= 0 && at(1) >= 0 && at(2) >= 0 && at(3) >= 0 && at(4) >= 0 ==> v >= raw
            &&& at(0) <= 0 && at(1) <= 0 && at(2) <= 0 && at(3) <= 0 && at(4) <= 0 ==> v <= raw
            &&& -20_000 <= raw <= 20_000 && -1024 <= at(0) <= 1024 && at(1) == 0 && at(2) == 0
                && at(3) == 0 && at(4) == 0 ==> v == raw + tdiv(203 * at(0), 2048)
            &&& -20_000 <= raw <= 20_000 && -1024 <= at(1) <= 1024 && at(0) == 0 && at(2) == 0
                && at(3) == 0 && at(4) == 0 ==> v == raw + tdiv(109 * at(1), 2048)
            &&& -20_000 <= raw <= 20_000 && -1024 <= at(2) <= 1024 && at(0) == 0 && at(1) == 0
                && at(3) == 0 && at(4) == 0 ==> v == raw + tdiv(109 * at(2), 2048)
            &&& -20_000 <= raw <= 20_000 && -1024 <= at(3) <= 1024 && at(0) == 0 && at(1) == 0
                && at(2) == 0 && at(4) == 0 ==> v == raw + tdiv(121 * at(3), 2048)
            &&& -20_000 <= raw <= 20_000 && -1024 <= at(4) <= 1024 && at(0) == 0 && at(1) == 0
                && at(2) == 0 && at(3) == 0 ==> v == raw + tdiv(72 * at(4), 2048)
        }),
{
    reveal(corrected_s);
    reveal_with_fuel(corr_sum, 6);
}

/// A miss is heard: a reading that knew nothing becomes an eighth of the miss for
/// every ply that found it, up to a quarter of the range; and the position is
/// corrected towards what the search said.
pub proof fn law_miss_is_heard(
    l: LoreView,
    p: Position,
    diff: int,
    depth: int,
    last: Option<(usize, usize)>,
    delta: u64,
    k: int,
)
    requires
        l.wf(),
        0 <= depth,
        0 <= k < 5,
    ensures
        ({
            let next = learned(l, p, diff, depth, last, delta);
            let i = corr_at(k, p.us(), corr_slot(p, last, delta, k));
            let asked = tdiv(diff * depth, 8);
            &&& l.corr[i] == 0 && -256 <= asked <= 256 ==> next.corr[i] == asked
            &&& l.corr[i] == 0 && asked > 256 ==> next.corr[i] == 256
            &&& l.corr[i] == 0 && asked < -256 ==> next.corr[i] == -256
            &&& asked > 0 && l.corr[i] < 1024 ==> next.corr[i] > l.corr[i]
            &&& asked < 0 && l.corr[i] > -1024 ==> next.corr[i] < l.corr[i]
        }),
{
    let slot = corr_slot(p, last, delta, k);
    law_correction_slots(p, p, last, last, delta, delta);
    assert(0 <= corr_slot(p, last, delta, k) < 16384);
    crate::lore::lemma_reading_learned(l, p, diff, depth, last, delta, k);
    let e = l.corr[corr_at(k, p.us(), slot)] as int;
    let b = crate::lore::corr_bonus(diff, depth);
    law_every_bonus_is_heard(e, b, 1024);
    law_history_saturates(e, b, 1024);
}

/// Learning from a miss in a position that nothing was known of corrects the
/// evaluation of that position with the miss, never against it.
pub proof fn law_position_is_corrected(
    p: Position,
    raw: int,
    diff: int,
    depth: int,
    last: Option<(usize, usize)>,
    delta: u64,
)
    requires
        0 <= depth,
        -MATE_IN_MAX < raw < MATE_IN_MAX,
    ensures
        ({
            let l = blank_lore();
            let v = corrected_s(
                learned(l, p, diff, depth, last, delta),
                p,
                raw,
                last,
                delta,
            );
            &&& corrected_s(l, p, raw, last, delta) == raw
            &&& diff >= 0 ==> v >= raw
            &&& diff <= 0 ==> v <= raw
        }),
{
    let l = blank_lore();
    law_correction_slots(p, p, last, last, delta, delta);
    let next = learned(l, p, diff, depth, last, delta);
    law_correction_moves_the_evaluation(l, p, raw, last, delta);
    law_correction_moves_the_evaluation(next, p, raw, last, delta);
    law_correction_learns(l, p, diff, depth, last, delta, 0, p.us(), corr_slot(p, last, delta, 0));
    law_correction_learns(l, p, diff, depth, last, delta, 1, p.us(), corr_slot(p, last, delta, 1));
    law_correction_learns(l, p, diff, depth, last, delta, 2, p.us(), corr_slot(p, last, delta, 2));
    law_correction_learns(l, p, diff, depth, last, delta, 3, p.us(), corr_slot(p, last, delta, 3));
    law_correction_learns(l, p, diff, depth, last, delta, 4, p.us(), corr_slot(p, last, delta, 4));
}

}
