//! What holds of the staged ordering and of what it remembers.
use vstd::prelude::*;
use crate::histories::{
    best_credited, bonus_added, cont_credited, quiet_score_s, replies_ok, reply_slot, reply_sum,
    HistoriesView,
};
use crate::lore::Slots;
use crate::lore_laws::law_every_bonus_is_heard;
use crate::moves::Move;
use crate::order::{
    capture_score_s, fuel, law_partial_sort_is_stable, lemma_step_uses, loaded, next_s, origins,
    quiet_scores, rank, step_s, OrderView, Stage, Step,
};
use crate::position::Position;
use crate::rank::early_bar;
use crate::reftree::{piece_or_pawn, ref_charged, ref_learned, RefRun};
use crate::node::Node;
use crate::score::law_history_saturates;
use crate::see::see_ge_s;

verus! {

// ---------------------------------------------------------------------------
// Handing out
// ---------------------------------------------------------------------------
/// Every capture set aside failed the exchange test.
pub open spec fn set_aside(o: OrderView, p: Position) -> bool {
    forall|i: int|
        0 <= i < o.bad.len() ==> !see_ge_s(p, #[trigger] o.bad[i], early_bar(o.depth))
}

/// Moves come in the order of the stages, and never back from a later one: the
/// table's move; the captures that pass the exchange test; one killer of the ply;
/// the quiet moves; and the captures that failed the test.
pub proof fn law_stages_in_order(
    o: OrderView,
    p: Position,
    h: HistoriesView,
    slots: Slots,
    ply: int,
)
    requires
        o.idx >= 0,
        set_aside(o, p),
    ensures
        ({
            let (n, given) = next_s(o, p, h, slots, ply);
            &&& rank(n.stage) <= rank(o.stage)
            &&& set_aside(n, p)
            &&& given matches Some(m) ==> match n.stage {
                Stage::CapturesInit => o.hash_move == Some(m),
                Stage::Captures => o.captures.contains(m) && o.hash_move != Some(m) && see_ge_s(
                    p,
                    m,
                    early_bar(o.depth),
                ),
                Stage::QuietInit => n.killer == Some(m) && o.hash_move != Some(m) && (
                h.killers[ply][0] == Some(m) || h.killers[ply][1] == Some(m) || h.killers[ply][2]
                    == Some(m)),
                Stage::Quiet => n.quiets.contains(m) && o.hash_move != Some(m) && n.killer != Some(
                    m,
                ),
                Stage::BadCaptures => n.bad.contains(m) && !see_ge_s(p, m, early_bar(o.depth))
                    && o.hash_move != Some(m),
                _ => false,
            }
            &&& n.depth == o.depth && n.hash_move == o.hash_move
        }),
    decreases fuel(o),
{
    lemma_step_uses(o, p, h, slots, ply);
    reveal(step_s);
    match step_s(o, p, h, slots, ply) {
        (n, Step::Go) => {
            law_stages_in_order(n, p, h, slots, ply);
        },
        (n, Step::Give(m)) => {
            if o.stage == Stage::Quiet {
                assert(n.quiets[o.idx] == m);
            }
            if o.stage == Stage::BadCaptures {
                assert(n.bad[o.idx] == m);
            }
        },
        (n, Step::Stop) => {},
    }
}

/// The table's move, if it is one of the moves, comes before any other.
pub proof fn law_table_move_comes_first(
    o: OrderView,
    p: Position,
    h: HistoriesView,
    slots: Slots,
    ply: int,
    m: Move,
)
    requires
        o.idx >= 0,
        o.stage == Stage::Hash,
        o.hash_move == Some(m),
        o.captures.contains(m) || o.quiets.contains(m),
    ensures
        next_s(o, p, h, slots, ply).1 == Some(m),
{
    reveal(step_s);
}

/// Once loaded, the captures stand by what they take, the most valuable first.
pub proof fn law_captures_by_what_they_take(
    first: Option<Move>,
    depth: int,
    quiescence: bool,
    p: Position,
    moves: Seq<Move>,
    i: int,
    j: int,
)
    requires
        ({
            let o = loaded(crate::order::new_order(first, depth, quiescence), p, moves);
            0 <= i < j < o.captures.len()
        }),
    ensures
        ({
            let o = loaded(crate::order::new_order(first, depth, quiescence), p, moves);
            capture_score_s(p, o.captures[i]) >= capture_score_s(p, o.captures[j])
        }),
{
    reveal(loaded);
    let all = Seq::<Move>::empty() + crate::movegen::forcing_upto(moves, moves.len() as int);
    let s = crate::order::capture_scores(p, all);
    law_partial_sort_is_stable(all, s, 0);
    crate::order::lemma_sorted_len(all, s, 0, all.len() as int);
    let from = origins(s, 0, s.len() as int);
    assert(crate::order::precedes(s, 0, from[i], from[j]));
    lemma_takes_something(p, all[from[i]]);
    lemma_takes_something(p, all[from[j]]);
}

proof fn lemma_takes_something(p: Position, mv: Move)
    ensures
        100 <= capture_score_s(p, mv) <= 20_000,
{
}

/// When the quiet moves' turn comes they stand by what the histories say, the
/// best liked first, down to those that are disliked by a thousand a ply, which
/// are left as they came.
pub proof fn law_quiet_moves_by_liking(
    o: OrderView,
    p: Position,
    h: HistoriesView,
    slots: Slots,
    ply: int,
    i: int,
    j: int,
)
    requires
        o.stage == Stage::QuietInit,
        0 <= i < j < o.quiets.len(),
        forall|k: int|
            0 <= k < o.quiets.len() ==> -1_000_000 <= #[trigger] quiet_score_s(
                h,
                p,
                o.quiets[k],
                slots,
            ) <= 1_000_000,
    ensures
        ({
            let n = step_s(o, p, h, slots, ply).0;
            let a = quiet_score_s(h, p, n.quiets[i], slots);
            let b = quiet_score_s(h, p, n.quiets[j], slots);
            &&& n.quiets.len() == o.quiets.len()
            &&& n.stage == Stage::Quiet && n.idx == 0
            &&& b > -1000 * o.depth ==> a >= b
        }),
{
    reveal(step_s);
    let s = quiet_scores(h, p, o.quiets, slots);
    law_partial_sort_is_stable(o.quiets, s, -1000 * o.depth);
    crate::order::lemma_sorted_len(o.quiets, s, -1000 * o.depth, o.quiets.len() as int);
    let from = origins(s, -1000 * o.depth, s.len() as int);
    assert(crate::order::precedes(s, -1000 * o.depth, from[i], from[j]));
    assert(quiet_score_s(h, p, o.quiets[from[i]], slots) == s[from[i]]);
    assert(quiet_score_s(h, p, o.quiets[from[j]], slots) == s[from[j]]);
}

// ---------------------------------------------------------------------------
// What is remembered
// ---------------------------------------------------------------------------
/// The replies a move is judged by: the opponent's last move and those two and
/// four plies before it, each by where it came from and went.
pub proof fn law_replies_go_back(played: Seq<Option<Move>>, ply: int)
    ensures
        ply >= 1 ==> (played[ply - 1] matches Some(m) ==> reply_slot(played, ply, 0) == Some(
            (m.from * 64 + m.to) as usize,
        )),
        ply >= 3 ==> (played[ply - 3] matches Some(m) ==> reply_slot(played, ply, 1) == Some(
            (m.from * 64 + m.to) as usize,
        )),
        ply >= 5 ==> (played[ply - 5] matches Some(m) ==> reply_slot(played, ply, 2) == Some(
            (m.from * 64 + m.to) as usize,
        )),
        ply < 1 || played[ply - 1] is None ==> reply_slot(played, ply, 0) is None,
        ply < 3 || played[ply - 3] is None ==> reply_slot(played, ply, 1) is None,
        ply < 5 || played[ply - 5] is None ==> reply_slot(played, ply, 2) is None,
{
}

/// What the tables think of a quiet move: the entry of its side, twice the reply's
/// and each of the earlier ones once.
pub proof fn law_what_liking_adds_up(
    h: HistoriesView,
    p: Position,
    mv: Move,
    slots: Slots,
)
    ensures
        p.piece_s(mv.from as int) is None ==> quiet_score_s(h, p, mv, slots) == 0,
        p.piece_s(mv.from as int) matches Some((pt, c)) ==> {
            let at = |k: int|
                match slots[k] {
                    Some(i) => h.cont[i as int][pt.index() * 64 + mv.to] as int,
                    None => 0,
                };
            quiet_score_s(h, p, mv, slots) == h.main[p.us()][mv.from * 64 + mv.to] + 2 * at(0) + at(
                1,
            ) + at(2)
        },
{
    reveal(quiet_score_s);
    reveal_with_fuel(reply_sum, 4);
}

/// One entry after a bonus.
proof fn lemma_cont_entry(
    c: Seq<Seq<i32>>,
    slots: Slots,
    pc: int,
    to: int,
    bonus: int,
    n: int,
    i: int,
)
    requires
        c.len() == 4096,
        forall|j: int|
            0 <= j < 4096 ==> crate::lore::within(#[trigger] c[j], 384, 30_000),
        replies_ok(slots),
        0 <= pc < 6,
        0 <= to < 64,
        -15_000 <= bonus <= 15_000,
        0 <= n <= 3,
        0 <= i < 4096,
    ensures
        ({
            let d = cont_credited(c, slots, pc, to, bonus, n);
            let at = pc * 64 + to;
            &&& d.len() == 4096
            &&& forall|j: int|
                0 <= j < 4096 ==> crate::lore::within(#[trigger] d[j], 384, 30_000)
            &&& bonus >= 0 ==> d[i][at] >= c[i][at]
            &&& bonus <= 0 ==> d[i][at] <= c[i][at]
        }),
    decreases n,
{
    if n > 0 {
        lemma_cont_entry(c, slots, pc, to, bonus, n - 1, i);
        let d = cont_credited(c, slots, pc, to, bonus, n - 1);
        if let Some(k) = slots[n - 1] {
            assert(k < 4096);
            assert(crate::lore::within(d[k as int], 384, 30_000));
            law_history_saturates(d[k as int][pc * 64 + to] as int, bonus, 30_000);
        }
    }
}

/// A quiet move that is credited is liked better and one that is charged worse;
/// the other side's table and the killers are left alone.
pub proof fn law_bonus_is_heard(
    h: HistoriesView,
    p: Position,
    mv: Move,
    slots: Slots,
    bonus: int,
)
    requires
        h.wf(),
        replies_ok(slots),
        mv.wf(),
        -15_000 <= bonus <= 15_000,
        p.piece_s(mv.from as int) is Some,
    ensures
        ({
            let next = bonus_added(h, p, mv, piece_or_pawn(p, mv), slots, bonus);
            let at = mv.from * 64 + mv.to;
            let before = quiet_score_s(h, p, mv, slots);
            let after = quiet_score_s(next, p, mv, slots);
            &&& bonus >= 0 ==> after >= before
            &&& bonus <= 0 ==> after <= before
            &&& bonus > 0 && h.main[p.us()][at] < 15_000 ==> after > before
            &&& bonus < 0 && h.main[p.us()][at] > -15_000 ==> after < before
            &&& next.main[1 - p.us()] == h.main[1 - p.us()]
            &&& next.killers == h.killers
            &&& forall|i: int|
                0 <= i < 4096 && i != at ==> #[trigger] next.main[p.us()][i] == h.main[p.us()][i]
        }),
{
    reveal(bonus_added);
    let at = mv.from * 64 + mv.to;
    let next = bonus_added(h, p, mv, piece_or_pawn(p, mv), slots, bonus);
    assert(crate::lore::within(h.main[p.us()], 4096, 15_000));
    law_history_saturates(h.main[p.us()][at] as int, bonus, 15_000);
    law_every_bonus_is_heard(h.main[p.us()][at] as int, bonus, 15_000);
    law_what_liking_adds_up(h, p, mv, slots);
    law_what_liking_adds_up(next, p, mv, slots);
    if let Some((pt, c)) = p.piece_s(mv.from as int) {
        assert(piece_or_pawn(p, mv) == pt.index());
        if let Some(i) = slots[0] {
            lemma_cont_entry(h.cont, slots, pt.index(), mv.to as int, bonus, 3, i as int);
        }
        if let Some(i) = slots[1] {
            lemma_cont_entry(h.cont, slots, pt.index(), mv.to as int, bonus, 3, i as int);
        }
        if let Some(i) = slots[2] {
            lemma_cont_entry(h.cont, slots, pt.index(), mv.to as int, bonus, 3, i as int);
        }
    }
}

/// The main tables are in range.
pub open spec fn mains_within(h: HistoriesView) -> bool {
    &&& h.main.len() == 2
    &&& forall|s: int| 0 <= s < 2 ==> crate::lore::within(#[trigger] h.main[s], 4096, 15_000)
}

proof fn lemma_staged_charged(
    h: HistoriesView,
    p: Position,
    best: Move,
    slots: Slots,
    bonus: int,
    quiets: Seq<Move>,
    n: int,
    at: int,
)
    requires
        mains_within(h),
        0 <= bonus <= 15_000,
        0 <= n <= quiets.len(),
        0 <= at < 4096,
        forall|i: int| 0 <= i < quiets.len() ==> (#[trigger] quiets[i]).wf(),
    ensures
        ({
            let next = ref_charged(h, p, best, slots, bonus, quiets, n);
            &&& mains_within(next)
            &&& next.killers == h.killers
            &&& next.main[p.us()][at] <= h.main[p.us()][at]
            &&& (forall|i: int|
                0 <= i < n && #[trigger] quiets[i] != best ==> quiets[i].from * 64 + quiets[i].to
                    != at) ==> next.main[p.us()][at] == h.main[p.us()][at]
            &&& (exists|i: int|
                0 <= i < n && #[trigger] quiets[i] != best && quiets[i].from * 64 + quiets[i].to
                    == at) && bonus > 0 && h.main[p.us()][at] > -15_000 ==> next.main[p.us()][at]
                < h.main[p.us()][at]
        }),
    decreases n,
{
    if n > 0 {
        lemma_staged_charged(h, p, best, slots, bonus, quiets, n - 1, at);
        let g = ref_charged(h, p, best, slots, bonus, quiets, n - 1);
        let m = quiets[n - 1];
        if m != best {
            reveal(bonus_added);
            let j = m.from * 64 + m.to;
            assert(crate::lore::within(g.main[p.us()], 4096, 15_000));
            law_history_saturates(g.main[p.us()][j] as int, -bonus, 15_000);
            law_every_bonus_is_heard(g.main[p.us()][j] as int, -bonus, 15_000);
        }
    }
}

/// When a staged node is done, a quiet best move becomes a killer and its entry
/// rises, and the entry of every other quiet move tried falls; with a capture for
/// the best move, or none, nothing is learned.
pub proof fn law_staged_node_teaches(
    h: HistoriesView,
    p: Position,
    n: Node,
    r: RefRun,
    slots: Slots,
    i: int,
)
    requires
        h.wf(),
        n.depth >= 1,
        n.ply < h.killers.len(),
        forall|j: int| 0 <= j < r.quiets.len() ==> (#[trigger] r.quiets[j]).wf(),
        0 <= i < r.quiets.len(),
    ensures
        ({
            let next = ref_learned(h, p, n, r, slots);
            &&& r.best_move is None ==> next == h
            &&& r.best_move matches Some(b) ==> {
                &&& !b.quiet() ==> next == h
                &&& b.quiet() && b.wf() && r.quiets[i] != b && (forall|j: int|
                    0 <= j < r.quiets.len() && #[trigger] r.quiets[j] != b ==> r.quiets[j].from
                        != b.from || r.quiets[j].to != b.to) ==> {
                    let at = b.from * 64 + b.to;
                    let k = r.quiets[i].from * 64 + r.quiets[i].to;
                    &&& h.main[p.us()][at] < 15_000 ==> next.main[p.us()][at] > h.main[p.us()][at]
                    &&& h.main[p.us()][k] > -15_000 ==> next.main[p.us()][k] < h.main[p.us()][k]
                    &&& next.killers[n.ply as int][0] == Some(b) || next.killers[n.ply as int][1]
                        == Some(b) || next.killers[n.ply as int][2] == Some(b)
                }
            }
        }),
{
    if let Some(b) = r.best_move {
        if b.quiet() && b.wf() && r.quiets[i] != b && (forall|j: int|
            0 <= j < r.quiets.len() && #[trigger] r.quiets[j] != b ==> r.quiets[j].from != b.from
                || r.quiets[j].to != b.to) {
            let bonus = crate::score::hist_bonus_s(n.depth as int);
            let at = b.from * 64 + b.to;
            let k = r.quiets[i].from * 64 + r.quiets[i].to;
            let g = best_credited(
                h,
                p,
                b,
                piece_or_pawn(p, b),
                slots,
                n.ply as int,
                n.depth as int,
            );
            reveal(bonus_added);
            assert(crate::lore::within(h.main[p.us()], 4096, 15_000));
            assert(crate::lore::within(h.main[1 - p.us()], 4096, 15_000));
            law_history_saturates(h.main[p.us()][at] as int, bonus, 15_000);
            law_every_bonus_is_heard(h.main[p.us()][at] as int, bonus, 15_000);
            assert(mains_within(g));
            let len = r.quiets.len() as int;
            lemma_staged_charged(g, p, b, slots, bonus, r.quiets, len, at);
            lemma_staged_charged(g, p, b, slots, bonus, r.quiets, len, k);
            assert forall|j: int| 0 <= j < len && #[trigger] r.quiets[j] != b implies r.quiets[j].from
                * 64 + r.quiets[j].to != at by {}
            assert(at != k);
        }
    }
}

}
