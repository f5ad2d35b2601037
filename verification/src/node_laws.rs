//! What holds of a node's moves taken together.
use vstd::prelude::*;
use crate::board::hash_s;
use crate::lore::{corrected_s, Slots};
use crate::moves::Move;
use crate::node::{gate_s, raw_s, weighed, Node, Setup, State, NO_EVAL};
use crate::order::next_s;
use crate::position::Position;
use crate::rank::picked;
use crate::reftree::{
    lemma_ref_interior, lemma_ref_loop, move_score_s, ref_absorbed, ref_gate_s, ref_interior_s,
    ref_loop_s, ref_node_of, ref_null_s, ref_null_tries, ref_rfp_s, ref_singular_s, ref_skips,
    ref_tried_s, ref_weighed, RefOutcome, RefRun,
};
use crate::score::eval_s;
use crate::search_laws::law_searched_move_counts;
use crate::tree::{
    eased, interior_s, lemma_interior, lemma_loop, loop_s, node_of, probcut_s, prune_s, Outcome,
    Run, Singular,
};
use crate::tt::probe_s;

verus! {

// ---------------------------------------------------------------------------
// The moves of a node
// ---------------------------------------------------------------------------
/// A node's best score lies within its window so far: at or below its low end,
/// which lies below beta until beta is reached.
pub open spec fn in_step(n: Node, r: Run) -> bool {
    r.best <= r.alpha && (!r.done ==> r.alpha < n.beta)
}

/// However many moves a node tries, its best score and the low end of its window
/// never fall, and it is over as soon as a score reaches beta.
pub proof fn law_best_never_falls(c: Setup, p: Position, n: Node, r: Run, i: int, len: int)
    requires
        n.ply < 127,
        in_step(n, r),
    ensures
        r.done ==> loop_s(c, p, n, r, i, len) == Outcome::Done(r),
        loop_s(c, p, n, r, i, len) matches Outcome::Done(x) ==> x.best >= r.best && x.alpha
            >= r.alpha && x.best <= x.alpha && (x.done ==> r.done || x.best >= n.beta),
    decreases len - i,
{
    lemma_loop(c, p, n, r, i, len);
    if i < len && !r.done {
        let list = picked(r.list, i);
        let mv = list.moves[i];
        let hist = list.hist[i] as int;
        let r1 = Run { list, ..r };
        if Some(mv) == n.excluded {
            law_best_never_falls(c, p, n, r1, i + 1, len);
        } else {
            let (s1, sing) = crate::tree::singular_s(c, r.st, p, n, mv);
            let r2 = Run { st: s1, ..r1 };
            if let Singular::Extend(ext) = sing {
                law_best_never_falls(c, p, n, r2, i + 1, len);
                law_searched_move_counts(c, p, n, r2, mv, hist, i, ext);
                let x = crate::tree::tried_s(c, p, n, r2, mv, hist, i, ext);
                lemma_in_step(c, p, n, r2, mv, hist, i, ext);
                law_best_never_falls(c, p, n, x, i + 1, len);
            }
        }
    }
}

proof fn lemma_in_step(
    c: Setup,
    p: Position,
    n: Node,
    r: Run,
    mv: Move,
    hist: int,
    i: int,
    ext: int,
)
    requires
        n.ply < 127,
        in_step(n, r),
        !r.done,
    ensures
        ({
            let x = crate::tree::tried_s(c, p, n, r, mv, hist, i, ext);
            in_step(n, x) && (x.done ==> x.best >= n.beta)
        }),
{
    crate::tree::lemma_tried(c, p, n, r, mv, hist, i, ext);
    reveal(crate::tree::settled);
    reveal(crate::tree::absorbed);
}

/// The move left out of a search is not searched: the node goes on to the next
/// with everything as it was.
pub proof fn law_excluded_move_is_left_out(
    c: Setup,
    p: Position,
    n: Node,
    r: Run,
    i: int,
    len: int,
)
    requires
        n.ply < 127,
        i < len,
        !r.done,
        n.excluded == Some(picked(r.list, i).moves[i]),
    ensures
        loop_s(c, p, n, r, i, len) == loop_s(
            c,
            p,
            n,
            Run { list: picked(r.list, i), ..r },
            i + 1,
            len,
        ),
{
    lemma_loop(c, p, n, r, i, len);
}

/// The same of the staged search, which does not count such a move either; and
/// its node too is over once beta is reached, or when no move is left.
pub proof fn law_staged_moves_of_a_node(c: Setup, p: Position, n: Node, r: RefRun, slots: Slots)
    requires
        n.ply < 127,
        r.order.idx >= 0,
    ensures
        ({
            let (order, given) = next_s(r.order, p, r.st.refs, slots, n.ply as int);
            &&& r.done ==> ref_loop_s(c, p, n, r, slots) == RefOutcome::Done(r)
            &&& !r.done && given is None ==> ref_loop_s(c, p, n, r, slots) == RefOutcome::Done(
                RefRun { order, ..r },
            )
            &&& !r.done && given is Some && given == n.excluded ==> ref_loop_s(c, p, n, r, slots)
                == ref_loop_s(c, p, n, RefRun { order, ..r }, slots)
        }),
{
    lemma_ref_loop(c, p, n, r, slots);
}

/// At the root of the staged search every move handed out is counted, searched
/// without an extension of its own, and taken in.
pub proof fn law_staged_root_passes_over_nothing(
    c: Setup,
    p: Position,
    n: Node,
    r: RefRun,
    slots: Slots,
)
    requires
        n.ply == 0,
        n.excluded is None,
        r.order.idx >= 0,
        !r.done,
        next_s(r.order, p, r.st.refs, slots, 0).1 is Some,
    ensures
        ({
            let (order, given) = next_s(r.order, p, r.st.refs, slots, 0);
            let mv = given->0;
            let r1 = RefRun { order, count: r.count + 1, ..r };
            let (s2, v, again) = ref_tried_s(
                c,
                p,
                n,
                r.st,
                mv,
                r.alpha,
                0,
                move_score_s(r.st.refs, p, mv, slots),
                r.count + 1,
            );
            !again ==> ref_loop_s(c, p, n, r, slots) == ref_loop_s(
                c,
                p,
                n,
                ref_absorbed(n, RefRun { st: s2, ..r1 }, mv, v),
                slots,
            )
        }),
{
    lemma_ref_loop(c, p, n, r, slots);
    reveal(ref_skips);
    reveal(ref_singular_s);
    let mv = next_s(r.order, p, r.st.refs, slots, 0).1->0;
    assert(ref_singular_s(c, r.st, p, n, mv) == (r.st, Singular::Extend(0)));
}

// ---------------------------------------------------------------------------
// Before the moves
// ---------------------------------------------------------------------------
/// Where a shortcut has an answer that is the node's; the moves are tried only
/// where none has.
pub proof fn law_shortcut_answers(c: Setup, st: State, p: Position, n: Node, alpha: int)
    requires
        n.ply < 127,
    ensures
        prune_s(c, st, p, n, alpha).1 matches Some(v) ==> interior_s(c, st, p, n, alpha).1 == v,
        prune_s(c, st, p, n, alpha).1 is None ==> (probcut_s(c, eased(c, n)) matches Some(v)
            ==> interior_s(c, st, p, n, alpha).1 == v),
{
    lemma_interior(c, st, p, n, alpha);
}

/// The same of the staged search.
pub proof fn law_staged_shortcut_answers(
    c: Setup,
    st: State,
    p: Position,
    n: Node,
    slots: Slots,
    alpha: int,
)
    requires
        n.ply < 127,
    ensures
        ref_rfp_s(n) matches Some(v) ==> ref_interior_s(c, st, p, n, slots, alpha) == (st, v),
        ref_rfp_s(n) is None && ref_null_tries(st, p, n) ==> (ref_null_s(c, st, p, n).1
            matches Some(v) ==> ref_interior_s(c, st, p, n, slots, alpha).1 == v),
{
    lemma_ref_interior(c, st, p, n, slots, alpha);
}

/// A node beyond the deepest ply is worth its evaluation, and the root is never
/// answered for before it is searched, whatever has been repeated.
pub proof fn law_first_and_last_ply(
    c: Setup,
    st: State,
    p: Position,
    alpha: int,
    beta: int,
    ply: int,
)
    requires
        0 <= ply < 128,
    ensures
        ply == 0 ==> gate_s(c, st, p, alpha, beta, ply) == (None::<int>, alpha),
        ply == 0 ==> ref_gate_s(c, st, p, alpha, beta, ply) == (None::<int>, alpha),
        ply == 127 && !st.trail.drawn(hash_s(p), p.halfmove as int) ==> gate_s(
            c,
            st,
            p,
            alpha,
            beta,
            ply,
        ).0 == Some(eval_s(c.net, p, c.features.rule50_fade)) && ref_gate_s(
            c,
            st,
            p,
            alpha,
            beta,
            ply,
        ).0 == Some(eval_s(c.net, p, false)),
{
}

/// A node knows whether its side is in check, what the table holds of its
/// position, and whether that ever earned a full window; the staged search looks
/// nothing up while a move is left out.
pub proof fn law_what_a_node_knows(
    st: State,
    p: Position,
    depth: int,
    beta: int,
    ply: int,
    pv: bool,
    cut: bool,
    excl: Option<Move>,
)
    ensures
        ({
            let n = node_of(st, p, depth, beta, ply, pv, cut, excl);
            let m = ref_node_of(st, p, depth, beta, ply, pv, cut, excl);
            let known = probe_s(st.tt, hash_s(p));
            &&& n.in_check == p.in_check() && m.in_check == p.in_check()
            &&& n.entry == known
            &&& excl is None ==> m.entry == known
            &&& excl is Some ==> m.entry is None
            &&& pv ==> n.tt_pv && m.tt_pv
            &&& !pv ==> (n.tt_pv <==> (known matches Some(e) && e.pv))
            &&& n.excluded == excl && m.excluded == excl && n.cut_node == cut && m.cut_node == cut
        }),
{
}

/// A node in check has no evaluation and claims no improvement; any other is
/// evaluated, and corrected where that is on. The staged search corrects nothing.
pub proof fn law_how_a_node_is_weighed(c: Setup, st: State, p: Position, n: Node)
    requires
        n.ply < 128,
        st.trail.wf(),
        ({
            let raw = raw_s(c.net, c.features.rule50_fade, st.tt, p, n.entry).1;
            -1_000_000_000 <= raw <= 1_000_000_000
        }),
    ensures
        ({
            let (s, m) = weighed(c, st, p, n);
            let raw = raw_s(c.net, c.features.rule50_fade, st.tt, p, n.entry).1;
            let ply = n.ply as int;
            &&& n.in_check ==> m.eval == NO_EVAL && !m.improving && s.trail.eval_stack[ply]
                == NO_EVAL && s.tt == st.tt
            &&& !n.in_check ==> m.raw == raw && s.trail.eval_stack[ply] == m.eval
            &&& !n.in_check && !c.features.corr_hist ==> m.eval == raw
            &&& !n.in_check && c.features.corr_hist ==> m.eval == corrected_s(
                st.lore,
                p,
                raw,
                st.trail.last_played(ply),
                st.trail.delta(),
            )
            &&& !n.in_check && n.entry is None ==> m.sharp == m.eval
            &&& !n.in_check && ply < 2 ==> !m.improving
            &&& s.lore == st.lore && s.nodes == st.nodes
            &&& m.depth == n.depth && m.beta == n.beta && m.entry == n.entry && m.pv_node
                == n.pv_node
        }),
        ({
            let (s, m) = ref_weighed(c, st, p, n);
            let raw = raw_s(c.net, false, st.tt, p, n.entry).1;
            let ply = n.ply as int;
            &&& n.in_check ==> m.raw == NO_EVAL && !m.improving && s.trail.eval_stack[ply]
                == NO_EVAL
            &&& !n.in_check && -1_000_000_000 <= raw <= 1_000_000_000 ==> m.raw == raw && m.eval
                == raw && s.trail.eval_stack[ply] == raw
            &&& !n.in_check && ply >= 2 && st.trail.eval_stack[ply - 2] != NO_EVAL ==> (m.improving
                <==> raw > st.trail.eval_stack[ply - 2])
            &&& s.refs == st.refs
        }),
{
    reveal(weighed);
    reveal(ref_weighed);
    reveal(corrected_s);
}

}
