//! What a node of the principal variation search computes.
use vstd::prelude::*;
use crate::board::hash_s;
use crate::lore::{capture_credited, captures_charged, credited, cut_off, learned, LoreView};
use crate::moves::Move;
use crate::movegen::legal;
use crate::node::{
    bound_s, cut_credit, draw_s, floor_or_exact, gate_s, lemma_quiesce_counts, quiesce_s,
    table_cut_s, table_move, weighed, NO_EVAL, Node, Setup, State,
};
use crate::num::{abs1, b2i, clamp3, log2_floor, max2, min2, tdiv};
use crate::position::{after, after_null, Position};
use crate::rank::{picked, ranked_s, RankedView};
use crate::score::{
    capt_bonus_s, from_tt, has_force, hist_bonus_s, mate_s, mated, to_tt, INF, MATE_IN_MAX,
};
use crate::see::see_ge_s;
use crate::trail::TrailView;
use crate::tt::{probe_s, store_s, TtEntry, TT_EVAL_NONE};

verus! {

// ---------------------------------------------------------------------------
// Whole-node pruning
// ---------------------------------------------------------------------------
/// Reverse futility: so far ahead that giving away the margin still beats beta.
pub open spec fn rfp_s(c: Setup, n: Node) -> Option<int> {
    let margin = c.params.rfp_margin * n.depth - c.params.rfp_improving * b2i(n.improving);
    if n.depth < c.params.rfp_depth && n.sharp - margin >= n.beta && abs1(n.sharp as int)
        < MATE_IN_MAX {
        Some(
            if c.features.rfp_damp {
                n.beta + tdiv(n.sharp - n.beta, 3)
            } else {
                n.sharp as int
            },
        )
    } else {
        None
    }
}

/// Razoring: so far behind that only captures could save the position.
pub open spec fn razors(c: Setup, n: Node, alpha: int) -> bool {
    c.features.razoring && n.depth <= c.params.razor_depth && abs1(alpha) < 2000 && n.eval
        + c.params.razor_margin * n.depth <= alpha
}

/// Null move: worth asking whether the position survives giving a move away.
pub open spec fn null_tries(c: Setup, st: State, p: Position, n: Node) -> bool {
    &&& !c.features.nmp_cut_node || n.cut_node
    &&& n.depth >= 3
    &&& n.sharp >= n.beta
    &&& n.sharp >= n.eval
    &&& n.eval >= n.beta - 20 * n.depth - 40 * b2i(n.improving) + 100
    &&& has_force(p, p.side)
    &&& !st.trail.just_passed(n.ply as int)
}

/// The reduction of a null move search: it grows with how far above beta the
/// node already is.
pub open spec fn null_reduction(c: Setup, n: Node) -> int {
    c.params.nmp_base + min2(tdiv(n.sharp - n.beta, 200), c.params.nmp_div as int)
}

/// A stored lower bound far enough above beta already answers.
pub open spec fn probcut_s(c: Setup, n: Node) -> Option<int> {
    match n.entry {
        Some(e) if c.features.probcut && !n.pv_node && !n.in_check && n.excluded is None
            && floor_or_exact(e.bound) && e.depth >= n.depth - 2 && abs1(n.beta as int)
            < MATE_IN_MAX && !mated(from_tt(e.score as int, n.ply as int)) && from_tt(
            e.score as int,
            n.ply as int,
        ) >= n.beta + c.params.probcut_margin => Some(from_tt(e.score as int, n.ply as int)),
        _ => None,
    }
}

/// A ply less where the table has no move to try first.
pub open spec fn eased(c: Setup, n: Node) -> Node {
    if c.features.iir && n.depth >= 4 && table_move(n.entry) is None {
        Node { depth: (n.depth - 1) as i32, ..n }
    } else {
        n
    }
}

// ---------------------------------------------------------------------------
// One move
// ---------------------------------------------------------------------------
/// A node part way through its moves.
#[verifier::ext_equal]
pub struct Run {
    pub st: State,
    pub list: RankedView,
    pub alpha: int,
    pub best: int,
    pub best_move: Option<Move>,
    pub quiets: Seq<Move>,
    pub caps: Seq<Move>,
    pub done: bool,
}

/// What the singular search says of the table's move.
pub enum Singular {
    Extend(int),
    Return(int),
}

/// The stored score to measure the table's move against, where it is worth
/// asking whether that move is the only one.
pub open spec fn singular_tries(c: Setup, n: Node, mv: Move) -> Option<int> {
    match n.entry {
        Some(e) if n.ply > 0 && n.excluded is None && Some(mv) == e.best && n.depth
            >= c.params.sing_depth && n.ply < 120 && e.bounded() && e.depth >= n.depth - 3
            && floor_or_exact(e.bound) && !mated(from_tt(e.score as int, n.ply as int)) => Some(
            from_tt(e.score as int, n.ply as int),
        ),
        _ => None,
    }
}

/// What the score of every other move says: the move is the only one, or the
/// node is won without it, or it is one of several.
pub open spec fn singular_verdict(c: Setup, n: Node, s: int, ts: int, target: int) -> Singular {
    if s < target {
        if !n.pv_node && s < target - c.params.double_ext {
            Singular::Extend(2)
        } else {
            Singular::Extend(1)
        }
    } else if target >= n.beta {
        Singular::Return(target)
    } else if !n.pv_node && !mated(s) && s >= n.beta {
        Singular::Return(s)
    } else if ts >= n.beta {
        Singular::Extend(-1)
    } else {
        Singular::Extend(0)
    }
}

/// What becomes of a move before it is played.
#[derive(Clone, Copy, PartialEq, Eq, Structural)]
pub enum Verdict {
    Search,
    Skip,
    Break,
}

/// How many moves late move pruning lets through.
pub open spec fn late_count(c: Setup, n: Node) -> int {
    let full = c.params.lmp_base + n.depth * n.depth;
    if !c.features.lmp_improving || n.improving { full } else { full / 2 }
}

pub open spec fn quiet_verdict(
    c: Setup,
    p: Position,
    n: Node,
    alpha: int,
    mv: Move,
    hist: int,
    i: int,
) -> Verdict {
    let d = n.depth as int;
    if d <= c.params.lmp_depth && i >= late_count(c, n) {
        Verdict::Break
    } else if d <= c.params.fut_depth && n.eval + c.params.fut_base + c.params.fut_slope * d + tdiv(
        hist,
        c.params.fut_hist_div as int,
    ) <= alpha {
        Verdict::Break
    } else if c.features.history_prune && d <= 4 && hist < -c.params.hist_prune * (d * d) {
        Verdict::Skip
    } else if d <= 8 && !see_ge_s(p, mv, -c.params.see_prune_quiet * (d + d * d)) {
        Verdict::Skip
    } else {
        Verdict::Search
    }
}

/// Late move pruning, futility, history pruning and static exchange, where the
/// node has a score in hand to compare against.
#[verifier::opaque]
pub open spec fn shallow_s(
    c: Setup,
    p: Position,
    n: Node,
    best: int,
    alpha: int,
    mv: Move,
    hist: int,
    i: int,
) -> Verdict {
    if n.ply > 0 && !n.pv_node && !n.in_check && best > -MATE_IN_MAX && has_force(p, p.side) {
        if mv.quiet() {
            quiet_verdict(c, p, n, alpha, mv, hist, i)
        } else if n.depth <= 8 && !see_ge_s(p, mv, -c.params.see_prune * n.depth) {
            Verdict::Skip
        } else {
            Verdict::Search
        }
    } else {
        Verdict::Search
    }
}

/// The depth a child is searched to: one less, the extension, and a ply for a
/// check in a position that is not already decided.
pub open spec fn child_depth(c: Setup, n: Node, q: Position, ext: int) -> int {
    let e = if c.features.check_ext && q.in_check() && n.eval != NO_EVAL && abs1(n.eval as int)
        <= c.params.check_ext_eval {
        max2(ext, 1)
    } else {
        ext
    };
    n.depth - 1 + e
}

/// The table reduction, in 1024ths of a ply.
pub open spec fn table_reduction(c: Setup, n: Node, quiet: bool, hist: int, i: int) -> int {
    let base = c.lmr[min2(n.depth as int, 63) * 64 + min2(i, 63)] * 1024;
    let halved = if quiet { base } else { tdiv(base, 2) };
    halved + (if c.features.cut_node_lmr && n.cut_node {
        c.params.lmr_cut_f as int
    } else {
        0
    }) + (if n.pv_node {
        0
    } else {
        c.params.lmr_nonpv_f as int
    }) - (if c.features.ttpv_lmr && n.tt_pv {
        c.params.lmr_ttpv_f as int
    } else {
        0
    }) - clamp3(tdiv(hist * 1024, c.params.lmr_hist_div as int), -2048, 2048)
}

/// The logarithmic reduction.
pub open spec fn log_reduction(n: Node, quiet: bool, hist: int, i: int) -> int {
    log2_floor(i + 1) / 2 + log2_floor(n.depth as int) / 2 - b2i(!quiet || n.pv_node) - tdiv(
        hist + 15000,
        30000,
    ) + 2 * b2i(n.cut_node) + 1
}

/// How much shallower a late move is searched at first.
#[verifier::opaque]
pub open spec fn reduction_s(c: Setup, n: Node, mv: Move, hist: int, i: int, nd: int) -> int {
    let quiet = mv.quiet();
    if c.features.log_lmr {
        if n.depth > 2 && i >= 1 + 2 * b2i(n.ply == 0) && (!n.pv_node || quiet) {
            clamp3(log_reduction(n, quiet, hist, i), 0, max2(nd - 1, 0))
        } else {
            0
        }
    } else if n.depth >= 3 && (quiet || (c.features.lmr_captures && !n.pv_node && n.depth >= 3))
        && !n.in_check {
        clamp3(tdiv(table_reduction(c, n, quiet, hist, i), 1024), 0, max2(nd - 1, 0))
    } else {
        0
    }
}

/// The piece and destination of a move, as the trail keeps them.
pub open spec fn shape(p: Position, mv: Move) -> Option<(usize, usize)> {
    match p.piece_s(mv.from as int) {
        Some((pt, c)) => Some((pt.index() as usize, mv.to as usize)),
        None => None,
    }
}

/// The state with a move on the trail.
pub open spec fn stepped(st: State, p: Position, mv: Move, ply: int) -> State {
    st.on_trail(st.trail.with_played(ply, shape(p, mv)).with_key(hash_s(after(p, mv))))
}

/// At the root every move leaves what it cost and what was thought of it.
pub open spec fn root_noted(st: State, before: int, mv: Move, score: int) -> State {
    State {
        effort: st.effort.push((mv, (st.nodes - before) as u64)),
        scores: st.scores.push((mv, score as i32)),
        ..st
    }
}

/// A quiet move that had to be searched again has told something either way.
pub open spec fn again_credited(
    st: State,
    p: Position,
    mv: Move,
    depth: int,
    ply: int,
    better: bool,
) -> State {
    st.with_lore(
        credited(
            st.lore,
            p,
            mv,
            st.trail.slots(ply),
            if better { hist_bonus_s(depth) } else { -hist_bonus_s(depth) },
        ),
    )
}

/// The tables after a move has reached beta.
pub open spec fn cut_lore(
    c: Setup,
    st: State,
    p: Position,
    n: Node,
    mv: Move,
    quiets: Seq<Move>,
    caps: Seq<Move>,
) -> LoreView {
    let d = n.depth as int;
    let on = c.features.capture_hist;
    let l = if mv.quiet() {
        cut_off(st.lore, p, mv, n.ply as int, d, st.trail.slots(n.ply as int), quiets)
    } else {
        capture_credited(st.lore, on, p, mv, capt_bonus_s(d))
    };
    captures_charged(l, on, p, mv, capt_bonus_s(d), caps, caps.len() as int)
}

/// What a score does to a node.
#[verifier::opaque]
pub open spec fn absorbed(c: Setup, p: Position, n: Node, r: Run, mv: Move, score: int) -> Run {
    if score > r.alpha && score > r.best {
        let st = r.st.on_trail(r.st.trail.with_line(n.ply as int, mv));
        if score >= n.beta {
            Run {
                st: st.with_lore(cut_lore(c, st, p, n, mv, r.quiets, r.caps)),
                best: score,
                best_move: Some(mv),
                alpha: score,
                done: true,
                ..r
            }
        } else {
            filed(Run { st, best: score, best_move: Some(mv), alpha: score, ..r }, mv)
        }
    } else if score > r.best {
        filed(Run { best: score, best_move: Some(mv), ..r }, mv)
    } else {
        filed(r, mv)
    }
}

/// A move searched without ending the node joins those tried.
pub open spec fn filed(r: Run, mv: Move) -> Run {
    if mv.quiet() {
        Run { quiets: r.quiets.push(mv), ..r }
    } else {
        Run { caps: r.caps.push(mv), ..r }
    }
}

/// A node once a move's score is in: noted at the root, credited where the move
/// was searched again, and taken in.
#[verifier::opaque]
pub open spec fn settled(
    c: Setup,
    p: Position,
    n: Node,
    r: Run,
    st: State,
    mv: Move,
    score: int,
    again: bool,
) -> Run {
    let s1 = if n.ply == 0 { root_noted(st, r.st.nodes, mv, score) } else { st };
    let s2 = if again && mv.quiet() {
        again_credited(s1, p, mv, n.depth as int, n.ply as int, score > r.best)
    } else {
        s1
    };
    absorbed(c, p, n, Run { st: s2, ..r }, mv, score)
}

// ---------------------------------------------------------------------------
// The recursion
// ---------------------------------------------------------------------------
pub open spec fn open_node(n: Node) -> int {
    if n.excluded is None { 1 } else { 0 }
}

/// How a node's move loop ends.
pub enum Outcome {
    Done(Run),
    Early(State, int),
}

/// The null move search: the answer, if the position survives passing.
#[verifier::opaque]
pub open spec fn null_s(c: Setup, st: State, p: Position, n: Node) -> (State, Option<int>)
    decreases 128 - n.ply, open_node(n), 1int, 0int,
    when n.ply < 127
{
    let ply = n.ply as int;
    let q = after_null(p);
    let s0 = st.on_trail(st.trail.with_key(hash_s(q)).with_null(ply, true));
    let (s1, v) = negamax_s(
        c,
        s0,
        q,
        n.depth - null_reduction(c, n),
        -n.beta,
        -n.beta + 1,
        ply + 1,
        false,
        !n.cut_node,
        None,
    );
    let s2 = s1.on_trail(s1.trail.with_null(ply, false).without_key());
    (
        s2,
        if -v >= n.beta {
            Some(if mated(-v) { n.beta as int } else { -v })
        } else {
            None
        },
    )
}

/// Reverse futility, razoring and null move: the answer without looking at a
/// move, if there is one.
#[verifier::opaque]
pub open spec fn prune_s(c: Setup, st: State, p: Position, n: Node, alpha: int) -> (
    State,
    Option<int>,
)
    decreases 128 - n.ply, open_node(n), 2int, 0int,
    when n.ply < 127
{
    if n.pv_node || n.in_check {
        (st, None)
    } else if rfp_s(c, n) is Some {
        (st, rfp_s(c, n))
    } else {
        let (s1, q) = if razors(c, n, alpha) {
            quiesce_s(c, st, p, alpha, alpha + 1, n.ply as int)
        } else {
            (st, alpha)
        };
        if q < alpha {
            (s1, Some(q))
        } else if null_tries(c, s1, p, n) {
            null_s(c, s1, p, n)
        } else {
            (s1, None)
        }
    }
}

/// Every other move against a window just below the table's score.
#[verifier::opaque]
pub open spec fn singular_s(c: Setup, st: State, p: Position, n: Node, mv: Move) -> (
    State,
    Singular,
)
    decreases 128 - n.ply, open_node(n), 1int, 0int,
    when n.ply < 127
{
    match singular_tries(c, n, mv) {
        None => (st, Singular::Extend(0)),
        Some(ts) => {
            let target = ts - c.params.sing_margin * n.depth;
            let (s1, s) = negamax_s(
                c,
                st,
                p,
                tdiv(n.depth - 1, 2),
                target - 1,
                target,
                n.ply as int,
                false,
                n.cut_node,
                Some(mv),
            );
            (s1, singular_verdict(c, n, s, ts, target))
        },
    }
}

/// A child searched: the first move with the whole window, a later one with
/// none at first, again where it was reduced and did better than expected, and
/// with the whole window where it raises alpha.
#[verifier::opaque]
pub open spec fn child_s(
    c: Setup,
    st: State,
    q: Position,
    n: Node,
    alpha: int,
    nd: int,
    red: int,
    first: bool,
) -> (State, int, bool)
    decreases 128 - n.ply, open_node(n), 1int, 0int,
    when n.ply < 127
{
    let ply = n.ply + 1;
    let beta = n.beta as int;
    if first {
        let (s1, v) = negamax_s(
            c,
            st,
            q,
            nd,
            -beta,
            -alpha,
            ply,
            n.pv_node,
            !n.pv_node && !n.cut_node,
            None,
        );
        (s1, -v, false)
    } else {
        let (s1, v1) = negamax_s(c, st, q, nd - red, -alpha - 1, -alpha, ply, false, true, None);
        let again = -v1 > alpha && red > 0;
        let (s2, v2) = if again {
            negamax_s(c, s1, q, nd, -alpha - 1, -alpha, ply, false, !n.cut_node, None)
        } else {
            (s1, v1)
        };
        let (s3, v3) = if -v2 > alpha && -v2 < beta {
            negamax_s(c, s2, q, nd, -beta, -alpha, ply, true, false, None)
        } else {
            (s2, v2)
        };
        (s3, -v3, again)
    }
}

/// One move played, searched and taken in.
#[verifier::opaque]
pub open spec fn tried_s(
    c: Setup,
    p: Position,
    n: Node,
    r: Run,
    mv: Move,
    hist: int,
    i: int,
    ext: int,
) -> Run
    decreases 128 - n.ply, open_node(n), 2int, 0int,
    when n.ply < 127
{
    let q = after(p, mv);
    let nd = child_depth(c, n, q, ext);
    let (s1, score, again) = child_s(
        c,
        stepped(r.st, p, mv, n.ply as int),
        q,
        n,
        r.alpha,
        nd,
        reduction_s(c, n, mv, hist, i, nd),
        i == 0,
    );
    settled(c, p, n, r, s1.on_trail(s1.trail.without_key()), mv, score, again)
}

/// The moves of a node from `i` on.
#[verifier::opaque]
pub open spec fn loop_s(c: Setup, p: Position, n: Node, r: Run, i: int, len: int) -> Outcome
    decreases 128 - n.ply, open_node(n), 3int, len - i,
    when n.ply < 127
{
    if i >= len || r.done {
        Outcome::Done(r)
    } else {
        let list = picked(r.list, i);
        let mv = list.moves[i];
        let hist = list.hist[i] as int;
        let r1 = Run { list, ..r };
        if Some(mv) == n.excluded {
            loop_s(c, p, n, r1, i + 1, len)
        } else {
            let (s1, sing) = singular_s(c, r.st, p, n, mv);
            let r2 = Run { st: s1, ..r1 };
            match sing {
                Singular::Return(v) => Outcome::Early(s1, v),
                Singular::Extend(ext) => match shallow_s(
                    c,
                    p,
                    n,
                    r.best,
                    r.alpha,
                    mv,
                    hist,
                    i,
                ) {
                    Verdict::Break => Outcome::Done(r2),
                    Verdict::Skip => loop_s(c, p, n, r2, i + 1, len),
                    Verdict::Search => loop_s(
                        c,
                        p,
                        n,
                        tried_s(c, p, n, r2, mv, hist, i, ext),
                        i + 1,
                        len,
                    ),
                },
            }
        }
    }
}

/// A node about to try its moves.
pub open spec fn start_run(c: Setup, st: State, p: Position, n: Node, alpha: int) -> Run {
    Run {
        st,
        list: ranked_s(
            st.lore,
            c.features.capture_hist,
            p,
            legal(p),
            table_move(n.entry),
            n.ply as int,
            n.depth as int,
            st.trail.slots(n.ply as int),
        ),
        alpha,
        best: -INF,
        best_move: None,
        quiets: Seq::empty(),
        caps: Seq::empty(),
        done: false,
    }
}

/// The score contradicts the evaluation in a direction worth learning from.
pub open spec fn teaches(c: Setup, n: Node, best: int, best_move: Option<Move>) -> bool {
    &&& c.features.corr_hist
    &&& !n.in_check
    &&& abs1(best) < MATE_IN_MAX
    &&& best_move matches Some(m) ==> !m.captures()
    &&& (best < n.eval && best < n.beta) || (best > n.eval && best_move is Some)
}

/// The end of a node: what it learned goes into the tables.
#[verifier::opaque]
pub open spec fn finished(c: Setup, p: Position, n: Node, r: Run, alpha: int) -> (State, int) {
    let ply = n.ply as int;
    if r.best == -INF {
        (r.st, r.alpha)
    } else {
        let st = if teaches(c, n, r.best, r.best_move) {
            r.st.with_lore(
                learned(
                    r.st.lore,
                    p,
                    r.best - n.eval,
                    n.depth as int,
                    r.st.trail.last_played(ply),
                    r.st.trail.delta(),
                ),
            )
        } else {
            r.st
        };
        if n.excluded is None {
            (
                st.with_tt(
                    store_s(
                        st.tt,
                        hash_s(p),
                        n.depth as int,
                        to_tt(r.best, ply),
                        bound_s(r.best, alpha, n.beta as int),
                        r.best_move,
                        n.tt_pv,
                        if n.in_check { TT_EVAL_NONE } else { n.raw as i16 },
                    ),
                ),
                r.best,
            )
        } else {
            (st, r.best)
        }
    }
}

/// A node past its table entry and its evaluation.
#[verifier::opaque]
pub open spec fn interior_s(c: Setup, st: State, p: Position, n: Node, alpha: int) -> (State, int)
    decreases 128 - n.ply, open_node(n), 5int, 0int,
    when n.ply < 127
{
    let (s1, cut) = prune_s(c, st, p, n, alpha);
    let m = eased(c, n);
    if cut is Some {
        (s1, cut->0)
    } else if probcut_s(c, m) is Some {
        (s1, probcut_s(c, m)->0)
    } else {
        moves_s(c, s1, p, m, alpha)
    }
}

/// A node whose moves have to be tried.
#[verifier::opaque]
pub open spec fn moves_s(c: Setup, st: State, p: Position, n: Node, alpha: int) -> (State, int)
    decreases 128 - n.ply, open_node(n), 4int, 0int,
    when n.ply < 127
{
    if legal(p).len() == 0 {
        (st, if n.in_check { mate_s(n.ply as int) } else { 0 })
    } else {
        match loop_s(c, p, n, start_run(c, st, p, n, alpha), 0, legal(p).len() as int) {
            Outcome::Early(s2, v) => (s2, v),
            Outcome::Done(r) => finished(c, p, n, r, alpha),
        }
    }
}

/// The whole of a node's moves.
pub proof fn lemma_moves(c: Setup, st: State, p: Position, n: Node, alpha: int)
    requires
        n.ply < 127,
    ensures
        legal(p).len() == 0 ==> moves_s(c, st, p, n, alpha) == (
            st,
            if n.in_check { mate_s(n.ply as int) } else { 0 },
        ),
        legal(p).len() > 0 ==> moves_s(c, st, p, n, alpha) == (match loop_s(
            c,
            p,
            n,
            start_run(c, st, p, n, alpha),
            0,
            legal(p).len() as int,
        ) {
            Outcome::Early(s2, v) => (s2, v),
            Outcome::Done(r) => finished(c, p, n, r, alpha),
        }),
{
    reveal(moves_s);
    reveal(loop_s);
}

/// One move played, searched and taken in.
pub proof fn lemma_tried(
    c: Setup,
    p: Position,
    n: Node,
    r: Run,
    mv: Move,
    hist: int,
    i: int,
    ext: int,
)
    requires
        n.ply < 127,
    ensures
        tried_s(c, p, n, r, mv, hist, i, ext) == ({
            let q = after(p, mv);
            let nd = child_depth(c, n, q, ext);
            let (s1, score, again) = child_s(
                c,
                stepped(r.st, p, mv, n.ply as int),
                q,
                n,
                r.alpha,
                nd,
                reduction_s(c, n, mv, hist, i, nd),
                i == 0,
            );
            settled(c, p, n, r, s1.on_trail(s1.trail.without_key()), mv, score, again)
        }),
{
    reveal(tried_s);
    reveal(child_s);
}

/// The move loop, one move at a time.
pub proof fn lemma_loop(c: Setup, p: Position, n: Node, r: Run, i: int, len: int)
    requires
        n.ply < 127,
    ensures
        i >= len || r.done ==> loop_s(c, p, n, r, i, len) == Outcome::Done(r),
        i < len && !r.done ==> ({
            let list = picked(r.list, i);
            let mv = list.moves[i];
            let hist = list.hist[i] as int;
            let r1 = Run { list, ..r };
            let (s1, sing) = singular_s(c, r.st, p, n, mv);
            let r2 = Run { st: s1, ..r1 };
            let now = loop_s(c, p, n, r, i, len);
            if Some(mv) == n.excluded {
                now == loop_s(c, p, n, r1, i + 1, len)
            } else {
                match sing {
                    Singular::Return(v) => now == Outcome::Early(s1, v),
                    Singular::Extend(ext) => match shallow_s(
                        c,
                        p,
                        n,
                        r.best,
                        r.alpha,
                        mv,
                        hist,
                        i,
                    ) {
                        Verdict::Break => now == Outcome::Done(r2),
                        Verdict::Skip => now == loop_s(c, p, n, r2, i + 1, len),
                        Verdict::Search => now == loop_s(
                            c,
                            p,
                            n,
                            tried_s(c, p, n, r2, mv, hist, i, ext),
                            i + 1,
                            len,
                        ),
                    },
                }
            }
        }),
{
    reveal_with_fuel(loop_s, 2);
    reveal(singular_s);
    reveal(tried_s);
}

/// A node that has only been looked up.
pub open spec fn node_of(
    st: State,
    p: Position,
    depth: int,
    beta: int,
    ply: int,
    pv: bool,
    cut: bool,
    excl: Option<Move>,
) -> Node {
    let entry = probe_s(st.tt, hash_s(p));
    Node {
        depth: depth as i32,
        beta: beta as i32,
        ply: ply as usize,
        pv_node: pv,
        cut_node: cut,
        excluded: excl,
        in_check: p.in_check(),
        entry,
        tt_pv: pv || (entry matches Some(e) && e.pv),
        raw: 0,
        eval: 0,
        sharp: 0,
        improving: false,
    }
}

/// A node whose own count is in, and whose line is empty.
#[verifier::opaque]
pub open spec fn entered_s(
    c: Setup,
    st: State,
    p: Position,
    depth: int,
    alpha: int,
    beta: int,
    ply: int,
    pv: bool,
    cut: bool,
    excl: Option<Move>,
) -> (State, int)
    decreases 128 - ply, (if excl is None { 1int } else { 0 }), 6int, 0int,
    when 0 <= ply < 128
{
    let entry = probe_s(st.tt, hash_s(p));
    let (out, a) = gate_s(c, st, p, alpha, beta, ply);
    let hit = table_cut_s(p, entry, depth, a, beta, ply, pv, excl);
    if out is Some {
        (st, out->0)
    } else if hit is Some {
        (
            if c.features.tt_cut_credit && hit->0 >= beta {
                st.with_lore(
                    cut_credit(st.lore, st.trail, p, table_move(entry), depth, ply),
                )
            } else {
                st
            },
            hit->0,
        )
    } else {
        proof {
            reveal(weighed);
        }
        let (s2, n) = weighed(c, st, p, node_of(st, p, depth, beta, ply, pv, cut, excl));
        interior_s(c, s2, p, n, a)
    }
}

/// The search of a position to a depth with a window: the state after it, and
/// the score.
#[verifier::opaque]
pub open spec fn negamax_s(
    c: Setup,
    st: State,
    p: Position,
    depth: int,
    alpha: int,
    beta: int,
    ply: int,
    pv: bool,
    cut: bool,
    excl: Option<Move>,
) -> (State, int)
    decreases 128 - ply, (if excl is None { 1int } else { 0 }), 7int, 0int,
    when 0 <= ply < 128
{
    let s0 = st.on_trail(st.trail.without_line(ply));
    if depth <= 0 {
        quiesce_s(c, s0, p, alpha, beta, ply)
    } else {
        entered_s(c, s0.counted(), p, depth, alpha, beta, ply, pv, cut, excl)
    }
}

/// A node past its evaluation, step by step.
pub proof fn lemma_interior(c: Setup, st: State, p: Position, n: Node, alpha: int)
    requires
        n.ply < 127,
    ensures
        interior_s(c, st, p, n, alpha) == ({
            let (s1, cut) = prune_s(c, st, p, n, alpha);
            let m = eased(c, n);
            if cut is Some {
                (s1, cut->0)
            } else if probcut_s(c, m) is Some {
                (s1, probcut_s(c, m)->0)
            } else {
                moves_s(c, s1, p, m, alpha)
            }
        }),
{
    reveal(interior_s);
    reveal(prune_s);
    reveal(moves_s);
}

/// A node past its own count, step by step.
pub proof fn lemma_entered(
    c: Setup,
    st: State,
    p: Position,
    depth: int,
    alpha: int,
    beta: int,
    ply: int,
    pv: bool,
    cut: bool,
    excl: Option<Move>,
)
    requires
        0 <= ply < 128,
    ensures
        entered_s(c, st, p, depth, alpha, beta, ply, pv, cut, excl) == ({
            let entry = probe_s(st.tt, hash_s(p));
            let (out, a) = gate_s(c, st, p, alpha, beta, ply);
            let hit = table_cut_s(p, entry, depth, a, beta, ply, pv, excl);
            if out is Some {
                (st, out->0)
            } else if hit is Some {
                (
                    if c.features.tt_cut_credit && hit->0 >= beta {
                        st.with_lore(
                            cut_credit(st.lore, st.trail, p, table_move(entry), depth, ply),
                        )
                    } else {
                        st
                    },
                    hit->0,
                )
            } else {
                let (s2, n) = weighed(c, st, p, node_of(st, p, depth, beta, ply, pv, cut, excl));
                interior_s(c, s2, p, n, a)
            }
        }),
{
    reveal(entered_s);
    reveal(interior_s);
    reveal(weighed);
}

/// A node, step by step.
pub proof fn lemma_negamax(
    c: Setup,
    st: State,
    p: Position,
    depth: int,
    alpha: int,
    beta: int,
    ply: int,
    pv: bool,
    cut: bool,
    excl: Option<Move>,
)
    requires
        0 <= ply < 128,
    ensures
        negamax_s(c, st, p, depth, alpha, beta, ply, pv, cut, excl) == ({
            let s0 = st.on_trail(st.trail.without_line(ply));
            if depth <= 0 {
                quiesce_s(c, s0, p, alpha, beta, ply)
            } else {
                entered_s(c, s0.counted(), p, depth, alpha, beta, ply, pv, cut, excl)
            }
        }),
{
    reveal(negamax_s);
    reveal(entered_s);
}

// ---------------------------------------------------------------------------
// Counting
// ---------------------------------------------------------------------------
/// The nodes counted once a move loop is over.
pub open spec fn loop_nodes(o: Outcome) -> int {
    match o {
        Outcome::Done(r) => r.st.nodes,
        Outcome::Early(st, v) => st.nodes,
    }
}

pub proof fn lemma_weighed_counts(c: Setup, st: State, p: Position, n: Node)
    ensures
        weighed(c, st, p, n).0.nodes == st.nodes,
        weighed(c, st, p, n).1.ply == n.ply,
        weighed(c, st, p, n).1.excluded == n.excluded,
{
    reveal(weighed);
}

pub proof fn lemma_settled_counts(
    c: Setup,
    p: Position,
    n: Node,
    r: Run,
    st: State,
    mv: Move,
    score: int,
    again: bool,
)
    ensures
        settled(c, p, n, r, st, mv, score, again).st.nodes == st.nodes,
{
    reveal(settled);
    reveal(absorbed);
}

pub proof fn lemma_finished_counts(c: Setup, p: Position, n: Node, r: Run, alpha: int)
    ensures
        finished(c, p, n, r, alpha).0.nodes == r.st.nodes,
{
    reveal(finished);
}

/// A node counts itself and whatever it looks at.
pub proof fn lemma_negamax_counts(
    c: Setup,
    st: State,
    p: Position,
    depth: int,
    alpha: int,
    beta: int,
    ply: int,
    pv: bool,
    cut: bool,
    excl: Option<Move>,
)
    requires
        0 <= ply < 128,
    ensures
        negamax_s(c, st, p, depth, alpha, beta, ply, pv, cut, excl).0.nodes > st.nodes,
    decreases 128 - ply, (if excl is None { 1int } else { 0 }), 7int, 0int,
{
    lemma_negamax(c, st, p, depth, alpha, beta, ply, pv, cut, excl);
    let s0 = st.on_trail(st.trail.without_line(ply));
    lemma_quiesce_counts(c, s0, p, alpha, beta, ply);
    lemma_entered_counts(c, s0.counted(), p, depth, alpha, beta, ply, pv, cut, excl);
}

/// What follows a node's own count takes none back.
pub proof fn lemma_entered_counts(
    c: Setup,
    st: State,
    p: Position,
    depth: int,
    alpha: int,
    beta: int,
    ply: int,
    pv: bool,
    cut: bool,
    excl: Option<Move>,
)
    requires
        0 <= ply < 128,
    ensures
        entered_s(c, st, p, depth, alpha, beta, ply, pv, cut, excl).0.nodes >= st.nodes,
    decreases 128 - ply, (if excl is None { 1int } else { 0 }), 6int, 0int,
{
    lemma_entered(c, st, p, depth, alpha, beta, ply, pv, cut, excl);
    let entry = probe_s(st.tt, hash_s(p));
    let (out, a) = gate_s(c, st, p, alpha, beta, ply);
    let hit = table_cut_s(p, entry, depth, a, beta, ply, pv, excl);
    if out is None && hit is None {
        let n0 = node_of(st, p, depth, beta, ply, pv, cut, excl);
        lemma_weighed_counts(c, st, p, n0);
        let (s2, n) = weighed(c, st, p, n0);
        lemma_interior_counts(c, s2, p, n, a);
    }
}

/// Pruning before the moves counts no more than the node does.
pub proof fn lemma_interior_counts(c: Setup, st: State, p: Position, n: Node, alpha: int)
    requires
        n.ply < 127,
    ensures
        st.nodes <= prune_s(c, st, p, n, alpha).0.nodes <= interior_s(
            c,
            st,
            p,
            n,
            alpha,
        ).0.nodes,
    decreases 128 - n.ply, open_node(n), 5int, 0int,
{
    lemma_interior(c, st, p, n, alpha);
    lemma_prune_counts(c, st, p, n, alpha);
    lemma_moves_counts(c, prune_s(c, st, p, n, alpha).0, p, eased(c, n), alpha);
}

/// What reverse futility, razoring and a pass count between them.
pub proof fn lemma_prune_counts(c: Setup, st: State, p: Position, n: Node, alpha: int)
    requires
        n.ply < 127,
    ensures
        st.nodes <= prune_s(c, st, p, n, alpha).0.nodes,
        !n.pv_node && !n.in_check && rfp_s(c, n) is None && razors(c, n, alpha) ==> quiesce_s(
            c,
            st,
            p,
            alpha,
            alpha + 1,
            n.ply as int,
        ).0.nodes <= prune_s(c, st, p, n, alpha).0.nodes,
    decreases 128 - n.ply, open_node(n), 2int, 0int,
{
    reveal(prune_s);
    reveal(null_s);
    lemma_quiesce_counts(c, st, p, alpha, alpha + 1, n.ply as int);
    let s1 = if razors(c, n, alpha) {
        quiesce_s(c, st, p, alpha, alpha + 1, n.ply as int).0
    } else {
        st
    };
    lemma_null_counts(c, s1, p, n);
}

pub proof fn lemma_null_counts(c: Setup, st: State, p: Position, n: Node)
    requires
        n.ply < 127,
    ensures
        st.nodes <= null_s(c, st, p, n).0.nodes,
    decreases 128 - n.ply, open_node(n), 1int, 0int,
{
    reveal(null_s);
    reveal(negamax_s);
    let ply = n.ply as int;
    let q = after_null(p);
    let s0 = st.on_trail(st.trail.with_key(hash_s(q)).with_null(ply, true));
    lemma_negamax_counts(
        c,
        s0,
        q,
        n.depth - null_reduction(c, n),
        -n.beta,
        -n.beta + 1,
        ply + 1,
        false,
        !n.cut_node,
        None,
    );
}

pub proof fn lemma_singular_counts(c: Setup, st: State, p: Position, n: Node, mv: Move)
    requires
        n.ply < 127,
    ensures
        st.nodes <= singular_s(c, st, p, n, mv).0.nodes,
    decreases 128 - n.ply, open_node(n), 1int, 0int,
{
    reveal(singular_s);
    reveal(negamax_s);
    if let Some(ts) = singular_tries(c, n, mv) {
        let target = ts - c.params.sing_margin * n.depth;
        lemma_negamax_counts(
            c,
            st,
            p,
            tdiv(n.depth - 1, 2),
            target - 1,
            target,
            n.ply as int,
            false,
            n.cut_node,
            Some(mv),
        );
    }
}

/// A child counts itself, and each search of it counts no less than the one
/// before.
pub proof fn lemma_child_counts(
    c: Setup,
    st: State,
    q: Position,
    n: Node,
    alpha: int,
    nd: int,
    red: int,
    first: bool,
)
    requires
        n.ply < 127,
    ensures
        st.nodes < child_s(c, st, q, n, alpha, nd, red, first).0.nodes,
        !first ==> ({
            let ply = n.ply + 1;
            let (s1, v1) = negamax_s(c, st, q, nd - red, -alpha - 1, -alpha, ply, false, true, None);
            let (s2, v2) = negamax_s(
                c,
                s1,
                q,
                nd,
                -alpha - 1,
                -alpha,
                ply,
                false,
                !n.cut_node,
                None,
            );
            let end = child_s(c, st, q, n, alpha, nd, red, first).0.nodes;
            &&& s1.nodes <= end
            &&& -v1 > alpha && red > 0 ==> s2.nodes <= end
        }),
    decreases 128 - n.ply, open_node(n), 1int, 0int,
{
    reveal(child_s);
    reveal(negamax_s);
    let ply = n.ply + 1;
    let beta = n.beta as int;
    if first {
        lemma_negamax_counts(
            c,
            st,
            q,
            nd,
            -beta,
            -alpha,
            ply,
            n.pv_node,
            !n.pv_node && !n.cut_node,
            None,
        );
    } else {
        lemma_negamax_counts(c, st, q, nd - red, -alpha - 1, -alpha, ply, false, true, None);
        let (s1, v1) = negamax_s(c, st, q, nd - red, -alpha - 1, -alpha, ply, false, true, None);
        lemma_negamax_counts(c, s1, q, nd, -alpha - 1, -alpha, ply, false, !n.cut_node, None);
        let (s2, v2) = if -v1 > alpha && red > 0 {
            negamax_s(c, s1, q, nd, -alpha - 1, -alpha, ply, false, !n.cut_node, None)
        } else {
            (s1, v1)
        };
        lemma_negamax_counts(c, s2, q, nd, -beta, -alpha, ply, true, false, None);
    }
}

proof fn lemma_tried_counts(
    c: Setup,
    p: Position,
    n: Node,
    r: Run,
    mv: Move,
    hist: int,
    i: int,
    ext: int,
)
    requires
        n.ply < 127,
    ensures
        r.st.nodes < tried_s(c, p, n, r, mv, hist, i, ext).st.nodes,
    decreases 128 - n.ply, open_node(n), 2int, 0int,
{
    lemma_tried(c, p, n, r, mv, hist, i, ext);
    let q = after(p, mv);
    let nd = child_depth(c, n, q, ext);
    let s0 = stepped(r.st, p, mv, n.ply as int);
    let red = reduction_s(c, n, mv, hist, i, nd);
    lemma_child_counts(c, s0, q, n, r.alpha, nd, red, i == 0);
    let (s1, score, again) = child_s(c, s0, q, n, r.alpha, nd, red, i == 0);
    lemma_settled_counts(c, p, n, r, s1.on_trail(s1.trail.without_key()), mv, score, again);
}

/// The move loop takes no node back, and counts those of the move at hand.
pub proof fn lemma_loop_counts(c: Setup, p: Position, n: Node, r: Run, i: int, len: int)
    requires
        n.ply < 127,
    ensures
        ({
            let end = loop_nodes(loop_s(c, p, n, r, i, len));
            let list = picked(r.list, i);
            let mv = list.moves[i];
            let (s1, sing) = singular_s(c, r.st, p, n, mv);
            let r2 = Run { st: s1, list, ..r };
            &&& r.st.nodes <= end
            &&& i < len && !r.done && Some(mv) != n.excluded ==> {
                &&& s1.nodes <= end
                &&& sing matches Singular::Extend(ext) ==> (shallow_s(
                    c,
                    p,
                    n,
                    r.best,
                    r.alpha,
                    mv,
                    list.hist[i] as int,
                    i,
                ) == Verdict::Search ==> tried_s(
                    c,
                    p,
                    n,
                    r2,
                    mv,
                    list.hist[i] as int,
                    i,
                    ext,
                ).st.nodes <= end)
            }
        }),
    decreases 128 - n.ply, open_node(n), 3int, len - i,
{
    lemma_loop(c, p, n, r, i, len);
    if i < len && !r.done {
        let list = picked(r.list, i);
        let mv = list.moves[i];
        let hist = list.hist[i] as int;
        let r1 = Run { list, ..r };
        if Some(mv) == n.excluded {
            lemma_loop_counts(c, p, n, r1, i + 1, len);
        } else {
            lemma_singular_counts(c, r.st, p, n, mv);
            let (s1, sing) = singular_s(c, r.st, p, n, mv);
            let r2 = Run { st: s1, ..r1 };
            if let Singular::Extend(ext) = sing {
                match shallow_s(c, p, n, r.best, r.alpha, mv, hist, i) {
                    Verdict::Break => {},
                    Verdict::Skip => {
                        lemma_loop_counts(c, p, n, r2, i + 1, len);
                    },
                    Verdict::Search => {
                        lemma_tried_counts(c, p, n, r2, mv, hist, i, ext);
                        lemma_loop_counts(
                            c,
                            p,
                            n,
                            tried_s(c, p, n, r2, mv, hist, i, ext),
                            i + 1,
                            len,
                        );
                    },
                }
            }
        }
    }
}

/// Trying the moves counts what the loop counts.
pub proof fn lemma_moves_counts(c: Setup, st: State, p: Position, n: Node, alpha: int)
    requires
        n.ply < 127,
    ensures
        st.nodes <= moves_s(c, st, p, n, alpha).0.nodes,
        legal(p).len() > 0 ==> moves_s(c, st, p, n, alpha).0.nodes == loop_nodes(
            loop_s(c, p, n, start_run(c, st, p, n, alpha), 0, legal(p).len() as int),
        ),
    decreases 128 - n.ply, open_node(n), 4int, 0int,
{
    lemma_moves(c, st, p, n, alpha);
    if legal(p).len() > 0 {
        let r0 = start_run(c, st, p, n, alpha);
        lemma_loop_counts(c, p, n, r0, 0, legal(p).len() as int);
        if let Outcome::Done(r) = loop_s(c, p, n, r0, 0, legal(p).len() as int) {
            lemma_finished_counts(c, p, n, r, alpha);
        }
    }
}

// ---------------------------------------------------------------------------
// Laws
// ---------------------------------------------------------------------------
/// Only the keys decide whether a position is drawn.
pub proof fn lemma_drawn_by_keys(a: TrailView, b: TrailView, hash: u64, halfmove: int)
    requires
        a.keys == b.keys,
    ensures
        a.drawn(hash, halfmove) == b.drawn(hash, halfmove),
{
    let n = a.keys.len();
    if a.repeated(hash, halfmove) {
        let j = choose|j: int|
            2 <= j <= halfmove && j < n && j % 2 == 0 && #[trigger] a.keys[n - 1 - j] == hash;
        assert(b.keys[n - 1 - j] == hash);
    }
    if b.repeated(hash, halfmove) {
        let j = choose|j: int|
            2 <= j <= halfmove && j < n && j % 2 == 0 && #[trigger] b.keys[n - 1 - j] == hash;
        assert(a.keys[n - 1 - j] == hash);
    }
}

/// A drawn position below the root is worth the draw score of its ply, whatever
/// the window, and costs one node.
pub proof fn law_drawn_node(
    c: Setup,
    st: State,
    p: Position,
    depth: int,
    alpha: int,
    beta: int,
    ply: int,
    pv: bool,
    cut: bool,
)
    requires
        0 < ply < 128,
        0 < depth,
        st.trail.drawn(hash_s(p), p.halfmove as int),
    ensures
        ({
            let (s, v) = negamax_s(c, st, p, depth, alpha, beta, ply, pv, cut, None);
            v == draw_s(c, ply) && s.nodes == st.nodes + 1
        }),
{
    lemma_negamax(c, st, p, depth, alpha, beta, ply, pv, cut, None);
    let s1 = st.on_trail(st.trail.without_line(ply)).counted();
    lemma_entered(c, s1, p, depth, alpha, beta, ply, pv, cut, None);
    lemma_drawn_by_keys(st.trail, s1.trail, hash_s(p), p.halfmove as int);
}

/// Below the root, where a mate already in hand cannot be beaten any more, the
/// node is over at once and no child is searched.
pub proof fn law_mate_distance_pruning(
    c: Setup,
    st: State,
    p: Position,
    depth: int,
    alpha: int,
    beta: int,
    ply: int,
    pv: bool,
    cut: bool,
)
    requires
        0 < ply < 127,
        0 < depth,
        !st.trail.drawn(hash_s(p), p.halfmove as int),
        max2(alpha, mate_s(ply)) >= min2(beta, -mate_s(ply + 1)),
    ensures
        ({
            let (s, v) = negamax_s(c, st, p, depth, alpha, beta, ply, pv, cut, None);
            v == max2(alpha, mate_s(ply)) && s.nodes == st.nodes + 1
        }),
{
    lemma_negamax(c, st, p, depth, alpha, beta, ply, pv, cut, None);
    let s1 = st.on_trail(st.trail.without_line(ply)).counted();
    lemma_entered(c, s1, p, depth, alpha, beta, ply, pv, cut, None);
    lemma_drawn_by_keys(st.trail, s1.trail, hash_s(p), p.halfmove as int);
}

/// A side that is mated below the root, in a position the table does not know,
/// is scored by how far from the root that is, and costs one node.
pub proof fn law_mated_node(
    c: Setup,
    st: State,
    p: Position,
    depth: int,
    alpha: int,
    beta: int,
    ply: int,
    pv: bool,
    cut: bool,
)
    requires
        0 < ply < 127,
        0 < depth <= 1000,
        p.in_check(),
        legal(p).len() == 0,
        !st.trail.drawn(hash_s(p), p.halfmove as int),
        probe_s(st.tt, hash_s(p)) is None,
        max2(alpha, mate_s(ply)) < min2(beta, -mate_s(ply + 1)),
    ensures
        ({
            let (s, v) = negamax_s(c, st, p, depth, alpha, beta, ply, pv, cut, None);
            v == mate_s(ply) && s.nodes == st.nodes + 1
        }),
{
    lemma_negamax(c, st, p, depth, alpha, beta, ply, pv, cut, None);
    let s1 = st.on_trail(st.trail.without_line(ply)).counted();
    lemma_entered(c, s1, p, depth, alpha, beta, ply, pv, cut, None);
    lemma_drawn_by_keys(st.trail, s1.trail, hash_s(p), p.halfmove as int);
    let a = gate_s(c, s1, p, alpha, beta, ply).1;
    let n0 = node_of(s1, p, depth, beta, ply, pv, cut, None);
    lemma_weighed_counts(c, s1, p, n0);
    let (s2, n) = weighed(c, s1, p, n0);
    reveal(weighed);
    lemma_interior(c, s2, p, n, a);
    law_no_pruning_in_check(c, s2, p, n, a);
    lemma_moves(c, s2, p, eased(c, n), a);
}

/// A check earns its ply while the game is still a contest, and nothing once the
/// position is decided.
pub proof fn law_check_extends_a_contest(c: Setup, n: Node, q: Position, ext: int)
    requires
        c.features.check_ext,
        q.in_check(),
        n.eval != NO_EVAL,
    ensures
        abs1(n.eval as int) <= c.params.check_ext_eval ==> child_depth(c, n, q, ext) == n.depth - 1
            + max2(ext, 1),
        abs1(n.eval as int) > c.params.check_ext_eval ==> child_depth(c, n, q, ext) == n.depth - 1
            + ext,
{
}

/// A node searching with a move excluded takes no answer from the table and
/// leaves none behind.
pub proof fn law_excluded_node_keeps_to_itself(
    c: Setup,
    p: Position,
    n: Node,
    r: Run,
    depth: int,
    alpha: int,
    beta: int,
    pv: bool,
)
    requires
        n.excluded is Some,
    ensures
        table_cut_s(p, n.entry, depth, alpha, beta, n.ply as int, pv, n.excluded) is None,
        probcut_s(c, n) is None,
        finished(c, p, n, r, alpha).0.tt == r.st.tt,
{
    reveal(finished);
}

/// Near the fifty move wall, and on the principal variation, the table ends no
/// node.
pub proof fn law_no_table_cut_near_the_wall(
    p: Position,
    entry: Option<TtEntry>,
    depth: int,
    alpha: int,
    beta: int,
    ply: int,
    pv: bool,
    excl: Option<Move>,
)
    requires
        p.halfmove >= 90 || pv,
    ensures
        table_cut_s(p, entry, depth, alpha, beta, ply, pv, excl) is None,
{
}

/// Two passes in a row are never tried: the node below a pass does not pass.
pub proof fn law_no_two_passes(c: Setup, st: State, p: Position, n: Node, ply: int)
    requires
        n.ply == ply + 1,
        0 <= ply < 127,
        st.trail.wf(),
    ensures
        !null_tries(c, st.on_trail(st.trail.with_null(ply, true)), p, n),
{
}

/// A reduced search is never reduced below one ply, and nothing is ever
/// extended by more than two.
pub proof fn law_depths_stay_in_range(
    c: Setup,
    n: Node,
    mv: Move,
    hist: int,
    i: int,
    q: Position,
    ext: int,
)
    requires
        -1 <= ext <= 2,
    ensures
        ({
            let nd = child_depth(c, n, q, ext);
            let red = reduction_s(c, n, mv, hist, i, nd);
            &&& nd <= n.depth + 1
            &&& 0 <= red
            &&& nd >= 1 ==> nd - red >= 1
            &&& nd < 1 ==> red == 0
        }),
{
    reveal(reduction_s);
}

/// A reverse futility cutoff is part of the way from beta to the estimate, or
/// all of it, and never beyond.
pub proof fn law_futility_between(c: Setup, n: Node)
    ensures
        rfp_s(c, n) matches Some(v) ==> min2(n.beta as int, n.sharp as int) <= v <= max2(
            n.beta as int,
            n.sharp as int,
        ),
{
}

/// A node in check is never pruned without looking at its moves, and neither is
/// one on the principal variation.
pub proof fn law_no_pruning_in_check(c: Setup, st: State, p: Position, n: Node, alpha: int)
    requires
        n.ply < 127,
        n.in_check || n.pv_node,
    ensures
        prune_s(c, st, p, n, alpha) == (st, None::<int>),
{
    reveal(prune_s);
}

/// No move of a node that has no score in hand is passed over, and none at the
/// root.
pub proof fn law_first_move_is_searched(
    c: Setup,
    p: Position,
    n: Node,
    alpha: int,
    mv: Move,
    hist: int,
    i: int,
)
    ensures
        shallow_s(c, p, n, -INF as int, alpha, mv, hist, i) == Verdict::Search,
        n.ply == 0 ==> forall|best: int| #[trigger]
            shallow_s(c, p, n, best, alpha, mv, hist, i) == Verdict::Search,
{
    reveal(shallow_s);
}

}
