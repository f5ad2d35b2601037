//! What the staged picker hands out, from the first move to the last.
use vstd::prelude::*;
use crate::histories::HistoriesView;
use crate::lore::Slots;
use crate::movegen::forcing_upto;
use crate::moves::Move;
use crate::order::{
    calm_upto, capture_scores, first_killer, fuel, lemma_next_uses, lemma_step_uses, loaded,
    moves_sorted, new_order, next_s, quiet_scores, step_s, OrderView, Stage, Step,
};
use crate::position::Position;
use crate::rank::early_bar;
use crate::see::see_ge_s;

verus! {

/// Everything a picker hands out, asked again and again until it has none left.
pub open spec fn drained(
    o: OrderView,
    p: Position,
    h: HistoriesView,
    slots: Slots,
    ply: int,
) -> Seq<Move>
    decreases fuel(o),
    when o.idx >= 0
{
    proof {
        lemma_next_uses(o, p, h, slots, ply);
    }
    match next_s(o, p, h, slots, ply) {
        (n, Some(m)) => seq![m] + drained(n, p, h, slots, ply),
        (n, None) => Seq::empty(),
    }
}

/// The move, where there is one.
pub open spec fn at_most_one(m: Option<Move>) -> Seq<Move> {
    match m {
        Some(x) => seq![x],
        None => Seq::empty(),
    }
}

/// Not the table's move, and good enough for an early try.
pub open spec fn good(hash_move: Option<Move>, p: Position, depth: int) -> spec_fn(Move) -> bool {
    |m: Move| Some(m) != hash_move && see_ge_s(p, m, early_bar(depth))
}

/// Not the table's move, and not good enough.
pub open spec fn poor(hash_move: Option<Move>, p: Position, depth: int) -> spec_fn(Move) -> bool {
    |m: Move| Some(m) != hash_move && !see_ge_s(p, m, early_bar(depth))
}

/// Neither of two moves that have had their turn.
pub open spec fn neither(a: Option<Move>, b: Option<Move>) -> spec_fn(Move) -> bool {
    |m: Move| Some(m) != a && Some(m) != b
}

/// The quiet moves, by what the tables say of them.
pub open spec fn quiets_by_history(
    quiets: Seq<Move>,
    h: HistoriesView,
    p: Position,
    slots: Slots,
    depth: int,
) -> Seq<Move> {
    moves_sorted(
        quiets,
        quiet_scores(h, p, quiets, slots),
        -1000 * depth,
        quiets.len() as int,
    )
}

/// What follows the captures: a killer, the quiet moves and the captures that
/// were put off; nothing of it in a quiescence search that is not in check.
#[verifier::opaque]
pub open spec fn after_captures(
    o: OrderView,
    p: Position,
    h: HistoriesView,
    slots: Slots,
    ply: int,
    bad: Seq<Move>,
) -> Seq<Move> {
    if o.quiescence && !p.in_check() {
        Seq::empty()
    } else {
        let killer = first_killer(o, h.killers[ply]);
        at_most_one(killer) + quiets_by_history(o.quiets, h, p, slots, o.depth).filter(
            neither(o.hash_move, killer),
        ) + bad.filter(neither(o.hash_move, None))
    }
}

/// How far the captures have been walked does not matter to what follows them.
proof fn lemma_after_captures(
    a: OrderView,
    b: OrderView,
    p: Position,
    h: HistoriesView,
    slots: Slots,
    ply: int,
    bad: Seq<Move>,
)
    requires
        a.hash_move == b.hash_move,
        a.quiets == b.quiets,
        a.quiescence == b.quiescence,
        a.depth == b.depth,
    ensures
        after_captures(a, p, h, slots, ply, bad) == after_captures(b, p, h, slots, ply, bad),
        first_killer(a, h.killers[ply]) == first_killer(b, h.killers[ply]),
{
    reveal(after_captures);
}

/// One step of a picker, seen from all that it hands out.
proof fn lemma_drain_step(
    o: OrderView,
    p: Position,
    h: HistoriesView,
    slots: Slots,
    ply: int,
)
    requires
        o.idx >= 0,
    ensures
        drained(o, p, h, slots, ply) == (match step_s(o, p, h, slots, ply) {
            (n, Step::Give(m)) => seq![m] + drained(n, p, h, slots, ply),
            (n, Step::Stop) => Seq::empty(),
            (n, Step::Go) => drained(n, p, h, slots, ply),
        }),
        step_s(o, p, h, slots, ply).0.idx >= 0,
{
    lemma_step_uses(o, p, h, slots, ply);
}

proof fn lemma_filter_first(s: Seq<Move>, at: int, f: spec_fn(Move) -> bool)
    requires
        0 <= at <= s.len(),
    ensures
        at == s.len() ==> s.skip(at).filter(f) == Seq::<Move>::empty(),
        at < s.len() ==> s.skip(at).filter(f) == (if f(s[at]) {
            seq![s[at]] + s.skip(at + 1).filter(f)
        } else {
            s.skip(at + 1).filter(f)
        }),
{
    if at < s.len() {
        let head = seq![s[at]];
        assert(s.skip(at) =~= head + s.skip(at + 1));
        Seq::filter_distributes_over_add(head, s.skip(at + 1), f);
        reveal(Seq::filter);
        assert(head.drop_last() =~= Seq::<Move>::empty());
        assert(head.drop_last().filter(f) =~= Seq::<Move>::empty());
        if f(s[at]) {
            assert(head.filter(f) =~= head);
        } else {
            assert(head.filter(f) =~= Seq::<Move>::empty());
            assert(head.filter(f) + s.skip(at + 1).filter(f) =~= s.skip(at + 1).filter(f));
        }
    } else {
        reveal(Seq::filter);
        assert(s.skip(at) =~= Seq::<Move>::empty());
    }
}

proof fn lemma_filter_all(s: Seq<Move>, f: spec_fn(Move) -> bool)
    requires
        forall|i: int| 0 <= i < s.len() ==> f(#[trigger] s[i]),
    ensures
        s.filter(f) == s,
    decreases s.len(),
{
    reveal(Seq::filter);
    if s.len() > 0 {
        lemma_filter_all(s.drop_last(), f);
        assert(s.drop_last().push(s.last()) =~= s);
    }
}

proof fn lemma_drain_bad(o: OrderView, p: Position, h: HistoriesView, slots: Slots, ply: int)
    requires
        o.stage == Stage::BadCaptures,
        0 <= o.idx <= o.bad.len(),
    ensures
        drained(o, p, h, slots, ply) == o.bad.skip(o.idx).filter(neither(o.hash_move, None)),
    decreases o.bad.len() - o.idx,
{
    reveal(step_s);
    lemma_drain_step(o, p, h, slots, ply);
    lemma_filter_first(o.bad, o.idx, neither(o.hash_move, None));
    let n = step_s(o, p, h, slots, ply).0;
    if o.idx < o.bad.len() {
        lemma_drain_bad(n, p, h, slots, ply);
    } else {
        lemma_drain_step(n, p, h, slots, ply);
    }
}

proof fn lemma_drain_quiets(o: OrderView, p: Position, h: HistoriesView, slots: Slots, ply: int)
    requires
        o.stage == Stage::Quiet,
        0 <= o.idx <= o.quiets.len(),
    ensures
        drained(o, p, h, slots, ply) == o.quiets.skip(o.idx).filter(neither(o.hash_move, o.killer))
            + o.bad.filter(neither(o.hash_move, None)),
    decreases o.quiets.len() - o.idx,
{
    reveal(step_s);
    lemma_drain_step(o, p, h, slots, ply);
    lemma_filter_first(o.quiets, o.idx, neither(o.hash_move, o.killer));
    let n = step_s(o, p, h, slots, ply).0;
    let last = o.bad.filter(neither(o.hash_move, None));
    if o.idx < o.quiets.len() {
        lemma_drain_quiets(n, p, h, slots, ply);
        let m = o.quiets[o.idx];
        let more = o.quiets.skip(o.idx + 1).filter(neither(o.hash_move, o.killer));
        assert(seq![m] + (more + last) =~= (seq![m] + more) + last);
    } else {
        lemma_drain_step(n, p, h, slots, ply);
        let b = step_s(n, p, h, slots, ply).0;
        lemma_drain_bad(b, p, h, slots, ply);
        assert(o.bad.skip(0) =~= o.bad);
        assert(Seq::<Move>::empty() + last =~= last);
    }
}

proof fn lemma_drain_killers(o: OrderView, p: Position, h: HistoriesView, slots: Slots, ply: int)
    requires
        o.stage == Stage::CapturesEnd,
        o.idx >= 0,
        o.killer is None,
    ensures
        drained(o, p, h, slots, ply) == after_captures(o, p, h, slots, ply, o.bad),
{
    reveal(step_s);
    reveal(after_captures);
    lemma_drain_step(o, p, h, slots, ply);
    if !(o.quiescence && !p.in_check()) {
        let k = step_s(o, p, h, slots, ply).0;
        lemma_drain_step(k, p, h, slots, ply);
        let killer = first_killer(o, h.killers[ply]);
        assert(first_killer(k, h.killers[ply]) == killer);
        let q = step_s(k, p, h, slots, ply).0;
        lemma_drain_step(q, p, h, slots, ply);
        let w = step_s(q, p, h, slots, ply).0;
        assert(w.killer == killer);
        lemma_drain_quiets(w, p, h, slots, ply);
        let sorted = quiets_by_history(o.quiets, h, p, slots, o.depth);
        assert(w.quiets == sorted);
        assert(sorted.skip(0) =~= sorted);
        let calm = sorted.filter(neither(o.hash_move, killer));
        let last = o.bad.filter(neither(o.hash_move, None));
        assert(at_most_one(killer) + (calm + last) =~= at_most_one(killer) + calm + last);
    }
}

/// One step through the captures.
proof fn lemma_capture_step(o: OrderView, p: Position, h: HistoriesView, slots: Slots, ply: int)
    requires
        o.stage == Stage::Captures,
        o.idx >= 0,
    ensures
        step_s(o, p, h, slots, ply) == (if o.idx < o.captures.len() {
            let m = o.captures[o.idx];
            let n = OrderView { idx: o.idx + 1, ..o };
            if good(o.hash_move, p, o.depth)(m) {
                (n, Step::Give(m))
            } else if poor(o.hash_move, p, o.depth)(m) {
                (OrderView { bad: o.bad.push(m), ..n }, Step::Go)
            } else {
                (n, Step::Go)
            }
        } else {
            (OrderView { stage: Stage::CapturesEnd, ..o }, Step::Go)
        }),
{
    reveal(step_s);
}

proof fn lemma_drain_captures(o: OrderView, p: Position, h: HistoriesView, slots: Slots, ply: int)
    requires
        o.stage == Stage::Captures,
        0 <= o.idx <= o.captures.len(),
        o.killer is None,
    ensures
        ({
            let rest = o.captures.skip(o.idx);
            drained(o, p, h, slots, ply) == rest.filter(good(o.hash_move, p, o.depth))
                + after_captures(
                o,
                p,
                h,
                slots,
                ply,
                o.bad + rest.filter(poor(o.hash_move, p, o.depth)),
            )
        }),
    decreases o.captures.len() - o.idx,
{
    lemma_capture_step(o, p, h, slots, ply);
    lemma_drain_step(o, p, h, slots, ply);
    let g = good(o.hash_move, p, o.depth);
    let b = poor(o.hash_move, p, o.depth);
    lemma_filter_first(o.captures, o.idx, g);
    lemma_filter_first(o.captures, o.idx, b);
    let n = step_s(o, p, h, slots, ply).0;
    if o.idx < o.captures.len() {
        let m = o.captures[o.idx];
        lemma_drain_captures(n, p, h, slots, ply);
        let more = o.captures.skip(o.idx + 1);
        let put_off = o.bad + o.captures.skip(o.idx).filter(b);
        assert(n.bad + more.filter(b) =~= put_off);
        lemma_after_captures(n, o, p, h, slots, ply, put_off);
        let tail = after_captures(o, p, h, slots, ply, put_off);
        assert(seq![m] + (more.filter(g) + tail) =~= (seq![m] + more.filter(g)) + tail);
    } else {
        lemma_drain_killers(n, p, h, slots, ply);
        assert(o.bad + Seq::<Move>::empty() =~= o.bad);
        lemma_after_captures(n, o, p, h, slots, ply, o.bad);
        let tail = after_captures(o, p, h, slots, ply, o.bad);
        assert(Seq::<Move>::empty() + tail =~= tail);
    }
}

proof fn lemma_drain_first(o: OrderView, p: Position, h: HistoriesView, slots: Slots, ply: int)
    requires
        o.stage == Stage::Hash,
        o.idx >= 0,
        o.killer is None,
        o.bad == Seq::<Move>::empty(),
    ensures
        ({
            let first = match o.hash_move {
                Some(m) if o.captures.contains(m) || o.quiets.contains(m) => seq![m],
                _ => Seq::empty(),
            };
            let failing = o.captures.filter(poor(o.hash_move, p, o.depth));
            drained(o, p, h, slots, ply) == first + (o.captures.filter(
                good(o.hash_move, p, o.depth),
            ) + after_captures(o, p, h, slots, ply, failing))
        }),
{
    let c = OrderView { stage: Stage::Captures, idx: 0, ..o };
    assert(drained(o, p, h, slots, ply) =~= (match o.hash_move {
        Some(m) if o.captures.contains(m) || o.quiets.contains(m) => seq![m],
        _ => Seq::empty(),
    }) + drained(c, p, h, slots, ply)) by {
        reveal(step_s);
        lemma_drain_step(o, p, h, slots, ply);
        lemma_drain_step(step_s(o, p, h, slots, ply).0, p, h, slots, ply);
    }
    lemma_drain_captures(c, p, h, slots, ply);
    assert(c.captures.skip(0) =~= c.captures);
    let failing = o.captures.filter(poor(o.hash_move, p, o.depth));
    assert(c.bad + failing =~= failing);
    lemma_after_captures(c, o, p, h, slots, ply, failing);
}

proof fn lemma_regroup(
    a: Seq<Move>,
    b: Seq<Move>,
    c: Seq<Move>,
    d: Seq<Move>,
    e: Seq<Move>,
)
    ensures
        a + (b + (c + d + e)) == a + b + c + d + e,
        a + (b + Seq::<Move>::empty()) == a + b,
{
    assert(a + (b + (c + d + e)) =~= a + b + c + d + e);
    assert(a + (b + Seq::<Move>::empty()) =~= a + b);
}

/// Everything a picker hands out: the table's move if it is on the list, the
/// captures that pass the exchange test, the most valuable victim first, the
/// first killer that is on the list, the other quiet moves by their history, and
/// last the captures that fail the test. A quiescence search that is not in
/// check ends after the captures that pass.
pub proof fn law_drained_in_stages(
    hash_move: Option<Move>,
    depth: int,
    quiescence: bool,
    p: Position,
    moves: Seq<Move>,
    h: HistoriesView,
    slots: Slots,
    ply: int,
)
    ensures
        ({
            let o = loaded(new_order(hash_move, depth, quiescence), p, moves);
            let forcing = forcing_upto(moves, moves.len() as int);
            let captures = moves_sorted(
                forcing,
                capture_scores(p, forcing),
                0,
                forcing.len() as int,
            );
            let quiets = calm_upto(moves, moves.len() as int);
            let first = match hash_move {
                Some(m) if captures.contains(m) || quiets.contains(m) => seq![m],
                _ => Seq::empty(),
            };
            let killer = first_killer(o, h.killers[ply]);
            let early = first + captures.filter(good(hash_move, p, depth));
            drained(o, p, h, slots, ply) == (if quiescence && !p.in_check() {
                early
            } else {
                early + at_most_one(killer) + quiets_by_history(quiets, h, p, slots, depth).filter(
                    neither(hash_move, killer),
                ) + captures.filter(poor(hash_move, p, depth))
            })
        }),
{
    let e = new_order(hash_move, depth, quiescence);
    let o = loaded(e, p, moves);
    let forcing = forcing_upto(moves, moves.len() as int);
    let quiets = calm_upto(moves, moves.len() as int);
    assert({
        &&& o.stage == Stage::Hash
        &&& o.hash_move == hash_move
        &&& o.killer is None
        &&& o.depth == depth
        &&& o.quiescence == quiescence
        &&& o.captures == moves_sorted(
            forcing,
            capture_scores(p, forcing),
            0,
            forcing.len() as int,
        )
        &&& o.quiets == quiets
        &&& o.bad == Seq::<Move>::empty()
        &&& o.idx == 0
    }) by {
        reveal(loaded);
        assert(e.captures + forcing =~= forcing);
        assert(e.quiets + quiets =~= quiets);
    }
    lemma_drain_first(o, p, h, slots, ply);
    let first = match hash_move {
        Some(m) if o.captures.contains(m) || o.quiets.contains(m) => seq![m],
        _ => Seq::empty(),
    };
    let passing = o.captures.filter(good(hash_move, p, depth));
    let failing = o.captures.filter(poor(hash_move, p, depth));
    assert forall|k: int| 0 <= k < failing.len() implies neither(hash_move, None)(
        #[trigger] failing[k],
    ) by {
        o.captures.lemma_filter_pred(poor(hash_move, p, depth), k);
    }
    lemma_filter_all(failing, neither(hash_move, None));
    let tail = after_captures(o, p, h, slots, ply, failing);
    let killer = first_killer(o, h.killers[ply]);
    let calm = quiets_by_history(quiets, h, p, slots, depth).filter(neither(hash_move, killer));
    assert(tail == (if quiescence && !p.in_check() {
        Seq::empty()
    } else {
        at_most_one(killer) + calm + failing
    })) by {
        reveal(after_captures);
    }
    lemma_regroup(first, passing, at_most_one(killer), calm, failing);
}

}
