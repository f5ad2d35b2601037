//! What holds of a node of either search.
use vstd::prelude::*;
use crate::board::hash_s;
use crate::lore::Slots;
use crate::movegen::legal;
use crate::moves::Move;
use crate::node::{quiesce_s, Node, Setup, State};
use crate::position::{after, Position};
use crate::rank::picked;
use crate::reftree::{
    lemma_nothing_to_give, lemma_ref, lemma_ref_entered, lemma_ref_interior, lemma_ref_loop,
    ref_absorbed, ref_child_s, ref_finished, ref_gate_s, ref_loop_s, ref_node_of, ref_null_s,
    ref_quiesce_s, ref_reduces, ref_rfp_s, ref_s, ref_start, ref_weighed, RefOutcome, RefRun,
};
use crate::score::{INF, MATE, MATE_IN_MAX};
use crate::tree::{
    absorbed, child_depth, child_s, eased, finished, law_no_pruning_in_check, lemma_drawn_by_keys,
    lemma_entered, lemma_interior, lemma_loop, lemma_moves, lemma_negamax, lemma_tried, loop_s,
    moves_s, negamax_s, node_of, null_s, probcut_s, prune_s, reduction_s, rfp_s, settled,
    shallow_s, singular_s, tried_s, Run, Singular,
};
use crate::tt::probe_s;

verus! {

// ---------------------------------------------------------------------------
// No moves, no depth
// ---------------------------------------------------------------------------
/// A node without a legal move is mated if its side is in check, so many plies
/// from the root, and stalemated, which is nothing to either side, if it is not.
pub proof fn law_without_a_move(c: Setup, st: State, p: Position, n: Node, alpha: int)
    requires
        n.ply < 127,
        legal(p).len() == 0,
    ensures
        n.in_check ==> moves_s(c, st, p, n, alpha).1 == -MATE + n.ply,
        !n.in_check ==> moves_s(c, st, p, n, alpha).1 == 0,
{
    lemma_moves(c, st, p, n, alpha);
}

/// The same of a node of the staged search.
pub proof fn law_staged_without_a_move(
    c: Setup,
    st: State,
    p: Position,
    n: Node,
    slots: Slots,
    alpha: int,
)
    requires
        n.ply < 127,
        legal(p).len() == 0,
        n.excluded is None,
    ensures
        match ref_loop_s(c, p, n, ref_start(st, p, n, alpha), slots) {
            RefOutcome::Done(r) => {
                let v = ref_finished(p, n, r, slots, alpha).1;
                &&& n.in_check ==> v == -MATE + n.ply
                &&& !n.in_check ==> v == 0
            },
            RefOutcome::Early(s, v) => false,
        },
{
    let first = crate::node::table_move(n.entry);
    lemma_nothing_to_give(first, n.depth as int, false, p, st.refs, slots, n.ply as int);
    lemma_ref_loop(c, p, n, ref_start(st, p, n, alpha), slots);
    reveal(ref_finished);
}

/// A side on the principal variation that has no move and is not in check is
/// stalemated, in a position neither the history nor the table knows.
pub proof fn law_stalemated_node(
    c: Setup,
    st: State,
    p: Position,
    depth: int,
    alpha: int,
    beta: int,
    ply: int,
    cut: bool,
)
    requires
        0 < ply < 127,
        0 < depth <= 1000,
        !p.in_check(),
        legal(p).len() == 0,
        !st.trail.drawn(hash_s(p), p.halfmove as int),
        probe_s(st.tt, hash_s(p)) is None,
        alpha < beta,
        alpha < MATE - ply - 1,
        -MATE + ply < beta,
    ensures
        negamax_s(c, st, p, depth, alpha, beta, ply, true, cut, None).1 == 0,
        depth > 2 ==> ref_s(c, st, p, depth, alpha, beta, ply, true, cut, None).1 == 0,
{
    let s1 = st.on_trail(st.trail.without_line(ply)).counted();
    lemma_drawn_by_keys(st.trail, s1.trail, hash_s(p), p.halfmove as int);
    lemma_negamax(c, st, p, depth, alpha, beta, ply, true, cut, None);
    lemma_entered(c, s1, p, depth, alpha, beta, ply, true, cut, None);
    let a = crate::node::gate_s(c, s1, p, alpha, beta, ply).1;
    let n0 = node_of(s1, p, depth, beta, ply, true, cut, None);
    let (s2, n) = crate::node::weighed(c, s1, p, n0);
    reveal(crate::node::weighed);
    lemma_interior(c, s2, p, n, a);
    law_no_pruning_in_check(c, s2, p, n, a);
    lemma_moves(c, s2, p, eased(c, n), a);
    if depth > 2 {
        lemma_ref(c, st, p, depth, alpha, beta, ply, true, cut, None);
        lemma_ref_entered(c, s1, p, depth, alpha, beta, ply, true, cut, None);
        let b = ref_gate_s(c, s1, p, alpha, beta, ply).1;
        let m0 = ref_node_of(s1, p, depth, beta, ply, true, cut, None);
        let slots = crate::histories::reply_slots(s1.trail.played_moves, ply);
        reveal(ref_weighed);
        let (t2, m) = ref_weighed(c, s1, p, m0);
        lemma_ref_interior(c, t2, p, m, slots, b);
        let e = crate::reftree::ref_eased(m);
        law_staged_without_a_move(c, t2, p, e, slots, b);
    }
}

/// Where no depth is left, the quiescence search has the word, in both searches.
pub proof fn law_no_depth_left(
    c: Setup,
    st: State,
    p: Position,
    depth: int,
    alpha: int,
    beta: int,
    ply: int,
    pv: bool,
    cut: bool,
    excl: Option<Move>,
)
    requires
        0 <= ply < 128,
        depth <= 0,
    ensures
        ({
            let s = st.on_trail(st.trail.without_line(ply));
            &&& negamax_s(c, st, p, depth, alpha, beta, ply, pv, cut, excl) == quiesce_s(
                c,
                s,
                p,
                alpha,
                beta,
                ply,
            )
            &&& ref_s(c, st, p, depth, alpha, beta, ply, pv, cut, excl) == ref_quiesce_s(
                c,
                s,
                p,
                alpha,
                beta,
                ply,
            )
        }),
{
    lemma_negamax(c, st, p, depth, alpha, beta, ply, pv, cut, excl);
    lemma_ref(c, st, p, depth, alpha, beta, ply, pv, cut, excl);
}

// ---------------------------------------------------------------------------
// Taking a score in
// ---------------------------------------------------------------------------
/// A node keeps the best of its scores and the move that gave it, raises its
/// window with it, writes the line down where it does, and is over where it
/// reaches beta.
pub proof fn law_best_score_is_kept(c: Setup, p: Position, n: Node, r: Run, mv: Move, score: int)
    requires
        r.best <= r.alpha < n.beta,
        !r.done,
        n.ply < 127,
        r.st.trail.wf(),
    ensures
        ({
            let a = absorbed(c, p, n, r, mv, score);
            &&& score <= r.best ==> a.best == r.best && a.best_move == r.best_move
            &&& score > r.best ==> a.best == score && a.best_move == Some(mv)
            &&& score <= r.alpha ==> a.alpha == r.alpha && a.st == r.st
            &&& score > r.alpha ==> a.alpha == score && a.st.trail.pv[n.ply * 128] == Some(mv)
                && a.st.trail.pv_len[n.ply as int] >= 1
            &&& a.done <==> score >= n.beta
            &&& !a.done ==> a.st.lore == r.st.lore
            &&& !a.done && mv.quiet() ==> a.quiets == r.quiets.push(mv) && a.caps == r.caps
            &&& !a.done && !mv.quiet() ==> a.caps == r.caps.push(mv) && a.quiets == r.quiets
            &&& a.st.tt == r.st.tt && a.st.nodes == r.st.nodes && a.list == r.list
        }),
{
    reveal(absorbed);
    assert(0 <= n.ply * 128 < 16384);
}

/// The same of the staged search, which takes a best move only where the window
/// is raised.
pub proof fn law_staged_best_score_is_kept(n: Node, r: RefRun, mv: Move, score: int)
    requires
        r.best <= r.alpha < n.beta,
        !r.done,
        n.ply < 127,
        r.st.trail.wf(),
    ensures
        ({
            let a = ref_absorbed(n, r, mv, score);
            &&& score <= r.best ==> a.best == r.best
            &&& score > r.best ==> a.best == score
            &&& score <= r.alpha ==> a.alpha == r.alpha && a.st == r.st && a.best_move
                == r.best_move
            &&& score > r.alpha ==> a.alpha == score && a.best_move == Some(mv)
                && a.st.trail.pv[n.ply * 128] == Some(mv) && a.st.trail.pv_len[n.ply as int] >= 1
            &&& a.done <==> score >= n.beta
            &&& !a.done && mv.quiet() ==> a.quiets == r.quiets.push(mv)
            &&& !a.done && !mv.quiet() ==> a.quiets == r.quiets
            &&& a.st.refs == r.st.refs && a.st.tt == r.st.tt && a.count == r.count
        }),
{
    assert(0 <= n.ply * 128 < 16384);
}

// ---------------------------------------------------------------------------
// Searching a child
// ---------------------------------------------------------------------------
/// What a position is worth to the side that just moved is what it is worth to
/// the other with the sign changed. The first move is searched with the whole
/// window. A later one has to beat alpha with none first; where it was searched
/// shallower for that it has to do so again at full depth; and a score inside the
/// window always comes from a search of the whole window at full depth.
pub proof fn law_child_is_searched(
    c: Setup,
    st: State,
    q: Position,
    n: Node,
    alpha: int,
    nd: int,
    red: int,
    first: bool,
)
    requires
        n.ply < 127,
        alpha < n.beta,
    ensures
        ({
            let (s, v, again) = child_s(c, st, q, n, alpha, nd, red, first);
            let ply = n.ply + 1;
            let scout = -negamax_s(
                c,
                st,
                q,
                nd - red,
                -alpha - 1,
                -alpha,
                ply,
                false,
                true,
                None,
            ).1;
            &&& first ==> !again && v == -negamax_s(
                c,
                st,
                q,
                nd,
                -n.beta,
                -alpha,
                ply,
                n.pv_node,
                !n.pv_node && !n.cut_node,
                None,
            ).1
            &&& !first && scout <= alpha ==> v == scout && !again
            &&& !first ==> (again <==> scout > alpha && red > 0)
            &&& !first && scout >= n.beta && red <= 0 ==> v == scout
            &&& !first && alpha < v < n.beta ==> exists|s2: State|
                v == -(#[trigger] negamax_s(
                    c,
                    s2,
                    q,
                    nd,
                    -n.beta,
                    -alpha,
                    ply,
                    true,
                    false,
                    None,
                )).1
        }),
{
    reveal(child_s);
    reveal(negamax_s);
    if !first {
        let ply = n.ply + 1;
        let (s1, v1) = negamax_s(c, st, q, nd - red, -alpha - 1, -alpha, ply, false, true, None);
        let again = -v1 > alpha && red > 0;
        let (s2, v2) = if again {
            negamax_s(c, s1, q, nd, -alpha - 1, -alpha, ply, false, !n.cut_node, None)
        } else {
            (s1, v1)
        };
        let last = negamax_s(c, s2, q, nd, -n.beta as int, -alpha, ply, true, false, None);
        assert(negamax_s(c, s2, q, nd, -n.beta, -alpha, ply, true, false, None) == last);
    }
}

/// The same of the staged search: on the principal variation the first move, and
/// every score inside the window, come from a search of the whole window at full
/// depth; a move that comes late and falls short shallower falls short.
pub proof fn law_staged_child_is_searched(
    c: Setup,
    st: State,
    q: Position,
    n: Node,
    mv: Move,
    alpha: int,
    d: int,
    score: int,
    count: int,
)
    requires
        n.ply < 127,
        alpha < n.beta,
        count >= 1,
    ensures
        ({
            let (s, v, again) = ref_child_s(c, st, q, n, mv, alpha, d, score, count);
            let ply = n.ply + 1;
            &&& n.pv_node && count == 1 ==> !again && v == -ref_s(
                c,
                st,
                q,
                d - 1,
                -n.beta,
                -alpha,
                ply,
                true,
                false,
                None,
            ).1
            &&& n.pv_node && alpha < v < n.beta ==> exists|s2: State|
                v == -(#[trigger] ref_s(c, s2, q, d - 1, -n.beta, -alpha, ply, true, false, None)).1
            &&& !n.pv_node && !ref_reduces(n, mv, count) ==> !again && v == -ref_s(
                c,
                st,
                q,
                d - 1,
                -alpha - 1,
                -alpha,
                ply,
                false,
                !n.cut_node,
                None,
            ).1
            &&& again ==> ref_reduces(n, mv, count)
        }),
{
    reveal(ref_child_s);
    reveal(ref_s);
    let ply = n.ply + 1;
    let beta = n.beta as int;
    let late = ref_reduces(n, mv, count);
    let r = crate::reftree::ref_reduction(n, mv, score, count);
    let (s1, v1) = if late {
        ref_s(
            c,
            st,
            q,
            crate::num::clamp3(d - r - 1, 0, d - 1),
            -alpha - 1,
            -alpha,
            ply,
            false,
            true,
            None,
        )
    } else {
        (st, INF as int)
    };
    let full = if late { -v1 > alpha && r > 0 } else { !(n.pv_node && count == 1) };
    let (s2, v2) = if full {
        ref_s(c, s1, q, d - 1, -alpha - 1, -alpha, ply, false, !n.cut_node, None)
    } else {
        (s1, v1)
    };
    let last = ref_s(c, s2, q, d - 1, -beta, -alpha, ply, true, false, None);
    assert(ref_s(c, s2, q, d - 1, -n.beta, -alpha, ply, true, false, None) == last);
}

/// A move that is searched has its say: the node comes out of it no worse than
/// it leads to, one ply down and after the move has been made, and no worse than
/// it was.
pub proof fn law_searched_move_counts(
    c: Setup,
    p: Position,
    n: Node,
    r: Run,
    mv: Move,
    hist: int,
    i: int,
    ext: int,
)
    requires
        n.ply < 127,
        r.best <= r.alpha < n.beta,
        !r.done,
    ensures
        ({
            let q = after(p, mv);
            let nd = child_depth(c, n, q, ext);
            let x = tried_s(c, p, n, r, mv, hist, i, ext);
            let score = child_s(
                c,
                r.st.on_trail(
                    r.st.trail.with_played(
                        n.ply as int,
                        crate::tree::shape(p, mv),
                    ).with_key(hash_s(q)),
                ),
                q,
                n,
                r.alpha,
                nd,
                reduction_s(c, n, mv, hist, i, nd),
                i == 0,
            ).1;
            &&& x.best >= r.best && x.best >= score
            &&& x.best == r.best || x.best == score && x.best_move == Some(mv)
            &&& x.alpha >= r.alpha && (x.alpha == r.alpha || x.alpha == score)
            &&& x.done <==> score >= n.beta
        }),
{
    lemma_tried(c, p, n, r, mv, hist, i, ext);
    reveal(settled);
    reveal(absorbed);
}

/// No move of the root is passed over: each that is not excluded is searched in
/// its turn, without an extension of its own, until one reaches beta.
pub proof fn law_root_passes_over_nothing(
    c: Setup,
    p: Position,
    n: Node,
    r: Run,
    i: int,
    len: int,
)
    requires
        n.ply == 0,
        n.excluded is None,
        i < len,
        !r.done,
    ensures
        ({
            let list = picked(r.list, i);
            loop_s(c, p, n, r, i, len) == loop_s(
                c,
                p,
                n,
                tried_s(
                    c,
                    p,
                    n,
                    Run { list, ..r },
                    list.moves[i],
                    list.hist[i] as int,
                    i,
                    0,
                ),
                i + 1,
                len,
            )
        }),
{
    lemma_loop(c, p, n, r, i, len);
    reveal(singular_s);
    reveal(shallow_s);
    let list = picked(r.list, i);
    assert(singular_s(c, r.st, p, n, list.moves[i]) == (r.st, Singular::Extend(0)));
    assert(Run { st: r.st, ..Run { list, ..r } } == Run { list, ..r });
}

/// A node answers with its best score; with its window where it searched nothing.
pub proof fn law_node_answers_with_its_best(
    c: Setup,
    p: Position,
    n: Node,
    r: Run,
    alpha: int,
)
    ensures
        r.best > -INF ==> finished(c, p, n, r, alpha).1 == r.best,
        r.best == -INF ==> finished(c, p, n, r, alpha).1 == r.alpha,
        finished(c, p, n, r, alpha).0.nodes == r.st.nodes,
        finished(c, p, n, r, alpha).0.trail == r.st.trail,
{
    reveal(finished);
}

/// The same of the staged search.
pub proof fn law_staged_node_answers_with_its_best(
    p: Position,
    n: Node,
    r: RefRun,
    slots: Slots,
    alpha: int,
)
    ensures
        r.count > 0 ==> ref_finished(p, n, r, slots, alpha).1 == r.best,
        r.count == 0 && n.excluded is Some ==> ref_finished(p, n, r, slots, alpha).1 == r.alpha,
        ref_finished(p, n, r, slots, alpha).0.nodes == r.st.nodes,
        ref_finished(p, n, r, slots, alpha).0.trail == r.st.trail,
{
    reveal(ref_finished);
}

// ---------------------------------------------------------------------------
// Whole-node pruning
// ---------------------------------------------------------------------------
/// What is answered without looking at a move never lies inside the window, unless
/// improving is allowed more than a ply's margin.
pub proof fn law_pruning_stays_outside_the_window(
    c: Setup,
    st: State,
    p: Position,
    n: Node,
    alpha: int,
)
    requires
        n.ply < 127,
        alpha < n.beta,
        c.params.wf(),
        n.depth > 0,
    ensures
        prune_s(c, st, p, n, alpha).1 matches Some(v) ==> v < alpha || v >= n.beta
            || c.params.rfp_margin < c.params.rfp_improving,
        probcut_s(c, n) matches Some(v) ==> v > n.beta,
        ref_rfp_s(n) matches Some(v) ==> v >= n.beta,
        ref_null_s(c, st, p, n).1 matches Some(v) ==> v >= n.beta,
{
    reveal(prune_s);
    reveal(null_s);
    reveal(negamax_s);
    reveal(ref_null_s);
    reveal(ref_s);
    law_reverse_futility(c, n, n);
    assert(150 * (n.depth - crate::num::b2i(n.improving)) >= 0);
}

/// Reverse futility asks that the evaluation clear beta by the margin of every
/// ply left, less what an improving position is allowed, at a depth below its
/// limit and away from mates. It then answers with the evaluation, or with a third
/// of the way there. A better evaluation, fewer plies or an improving position
/// never stop it.
pub proof fn law_reverse_futility(c: Setup, n: Node, m: Node)
    requires
        c.params.wf(),
        n.depth > 0,
    ensures
        ({
            let ahead = n.sharp - n.beta;
            let need = c.params.rfp_margin * n.depth - (if n.improving {
                c.params.rfp_improving as int
            } else {
                0
            });
            &&& rfp_s(c, n) is Some <==> n.depth < c.params.rfp_depth && ahead >= need
                && -MATE_IN_MAX < n.sharp < MATE_IN_MAX
            &&& rfp_s(c, n) matches Some(v) ==> {
                &&& !c.features.rfp_damp ==> v == n.sharp
                &&& c.features.rfp_damp && ahead >= 0 ==> 3 * (v - n.beta) <= ahead < 3 * (v
                    - n.beta) + 3
            }
        }),
        rfp_s(c, n) is Some && m.beta == n.beta && n.sharp <= m.sharp < MATE_IN_MAX && 0 < m.depth
            <= n.depth && (n.improving ==> m.improving) ==> rfp_s(c, m) is Some,
        rfp_s(c, n) matches Some(v) ==> v >= n.beta || c.params.rfp_margin
            < c.params.rfp_improving,
{
    let margin = c.params.rfp_margin as int;
    assert(0 < m.depth <= n.depth ==> margin * m.depth <= margin * n.depth) by (nonlinear_arith)
        requires
            margin >= 0,
    ;
    assert(margin * n.depth >= margin) by (nonlinear_arith)
        requires
            margin >= 0,
            n.depth > 0,
    ;
}

}
