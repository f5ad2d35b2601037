//! What a node of the staged search computes.
use vstd::prelude::*;
use crate::board::hash_s;
use crate::histories::{best_credited, bonus_added, quiet_score_s, reply_slots, HistoriesView};
use crate::lore::Slots;
use crate::moves::Move;
use crate::movegen::legal;
use crate::node::{
    answers, bound_s, floor_or_exact, raw_s, sharpened, stored_eval, table_move, Node, Setup,
    Stand, State, NO_EVAL,
};
use crate::num::{abs1, b2i, clamp3, log2_floor, max2, min2, tdiv};
use crate::order::{
    awaits, fuel, law_each_move_once, law_loaded_moves_await, lemma_next_uses, loaded, new_order,
    next_s, OrderView,
};
use crate::position::{after, after_null, Position};
use crate::score::{
    eval_s, from_tt, has_force, hist_bonus_s, mate_s, mated, to_tt, INF, MATE_IN_MAX, MAX_PLY,
};
use crate::see::see_ge_s;
use crate::tree::{lemma_drawn_by_keys, node_of, open_node, Singular};
use crate::tt::{probe_s, store_s, Bound, Table, TtEntry, TT_EVAL_NONE};

verus! {

impl State {
    pub open spec fn with_refs(self, refs: HistoriesView) -> State {
        State { refs, ..self }
    }
}

// ---------------------------------------------------------------------------
// Quiescence
// ---------------------------------------------------------------------------
/// A staged quiescence node part way through its moves.
#[verifier::ext_equal]
pub struct RefQRun {
    pub st: State,
    pub order: OrderView,
    pub alpha: int,
    pub best: int,
    pub best_move: Option<Move>,
    /// How many moves have been handed out.
    pub count: int,
    pub done: bool,
}

/// The table's move, where quiescence may use it: out of check, captures only.
pub open spec fn quiet_table_move(entry: Option<TtEntry>, in_check: bool) -> Option<Move> {
    match table_move(entry) {
        Some(m) if in_check || m.captures() => Some(m),
        _ => None,
    }
}

/// Where a staged quiescence node stands before its moves.
pub open spec fn ref_q_stand(
    c: Setup,
    st: State,
    p: Position,
    alpha: int,
    beta: int,
    ply: int,
) -> Stand {
    let entry = probe_s(st.tt, hash_s(p));
    let a = max2(alpha, mate_s(ply));
    if ply >= MAX_PLY - 1 {
        Stand::Out(eval_s(c.net, p, false))
    } else if st.trail.drawn(hash_s(p), p.halfmove as int) {
        Stand::Out(0)
    } else if a >= min2(beta, -mate_s(ply + 1)) {
        Stand::Out(a)
    } else if entry matches Some(e) && e.bounded() && answers(
        e,
        from_tt(e.score as int, ply),
        a,
        beta,
    ) {
        Stand::Out(from_tt(entry->0.score as int, ply))
    } else if p.in_check() {
        Stand::On { alpha: a, eval: NO_EVAL as int, best: -INF }
    } else {
        let raw = match stored_eval(entry) {
            Some(v) => v,
            None => eval_s(c.net, p, false),
        };
        let best = sharpened(entry, raw, ply);
        let raised = max2(a, best);
        if raised >= beta {
            Stand::Out(raised)
        } else {
            Stand::On { alpha: raised, eval: raw, best }
        }
    }
}

pub open spec fn ref_q_absorbed(r: RefQRun, mv: Move, score: int, beta: int) -> RefQRun {
    if score > r.best {
        if score > r.alpha {
            RefQRun { best: score, alpha: score, best_move: Some(mv), done: score >= beta, ..r }
        } else {
            RefQRun { best: score, ..r }
        }
    } else {
        r
    }
}

pub open spec fn ref_q_start(
    st: State,
    p: Position,
    alpha: int,
    best: int,
) -> RefQRun {
    let entry = probe_s(st.tt, hash_s(p));
    RefQRun {
        st,
        order: loaded(
            new_order(quiet_table_move(entry, p.in_check()), 0, true),
            p,
            legal(p),
        ),
        alpha,
        best,
        best_move: None,
        count: 0,
        done: false,
    }
}

/// The end of a staged quiescence node.
pub open spec fn ref_q_finished(
    p: Position,
    r: RefQRun,
    alpha: int,
    beta: int,
    eval: int,
    ply: int,
) -> (State, int) {
    if r.count == 0 && p.in_check() {
        (r.st, mate_s(ply))
    } else {
        let tt = store_s(
            r.st.tt,
            hash_s(p),
            0,
            to_tt(r.best, ply),
            bound_s(r.best, alpha, beta),
            r.best_move,
            false,
            if p.in_check() { TT_EVAL_NONE } else { eval as i16 },
        );
        (r.st.with_tt(tt), r.best)
    }
}

/// The staged quiescence search of a position.
#[verifier::opaque]
pub open spec fn ref_quiesce_s(
    c: Setup,
    st: State,
    p: Position,
    alpha: int,
    beta: int,
    ply: int,
) -> (State, int)
    decreases 128 - ply, 2int, 0int,
    when 0 <= ply < 128
{
    let s0 = st.counted();
    match ref_q_stand(c, s0, p, alpha, beta, ply) {
        Stand::Out(v) => (s0, v),
        Stand::On { alpha: a, eval, best } => {
            let r = ref_q_loop_s(
                c,
                p,
                ref_q_start(s0, p, a, best),
                reply_slots(s0.trail.played_moves, ply),
                beta,
                ply,
            );
            ref_q_finished(p, r, a, beta, eval, ply)
        },
    }
}

/// The moves of a staged quiescence node, as the picker hands them out.
#[verifier::opaque]
pub open spec fn ref_q_loop_s(
    c: Setup,
    p: Position,
    r: RefQRun,
    slots: Slots,
    beta: int,
    ply: int,
) -> RefQRun
    decreases 128 - ply, 1int, fuel(r.order),
    when 0 <= ply < 127 && r.order.idx >= 0
{
    proof {
        lemma_next_uses(r.order, p, r.st.refs, slots, ply);
    }
    if r.done {
        r
    } else {
        let (order, given) = next_s(r.order, p, r.st.refs, slots, ply);
        match given {
            None => RefQRun { order, ..r },
            Some(mv) => {
                let r1 = RefQRun { order, count: r.count + 1, ..r };
                if !p.in_check() && !see_ge_s(p, mv, 0) {
                    ref_q_loop_s(c, p, r1, slots, beta, ply)
                } else {
                    let (st, score) = ref_q_child_s(c, p, r.st, mv, r.alpha, beta, ply);
                    ref_q_loop_s(
                        c,
                        p,
                        ref_q_absorbed(RefQRun { st, ..r1 }, mv, score, beta),
                        slots,
                        beta,
                        ply,
                    )
                }
            },
        }
    }
}

/// One move played, searched and taken back.
#[verifier::opaque]
pub open spec fn ref_q_child_s(
    c: Setup,
    p: Position,
    st: State,
    mv: Move,
    alpha: int,
    beta: int,
    ply: int,
) -> (State, int)
    decreases 128 - ply, 0int, 0int,
    when 0 <= ply < 127
{
    let q = after(p, mv);
    let s0 = st.on_trail(st.trail.with_move(ply, mv).with_key(hash_s(q)));
    let (s1, v) = ref_quiesce_s(c, s0, q, -beta, -alpha, ply + 1);
    (s1.on_trail(s1.trail.without_key()), -v)
}

/// The staged quiescence search, step by step.
pub proof fn lemma_ref_quiesce(c: Setup, st: State, p: Position, alpha: int, beta: int, ply: int)
    requires
        0 <= ply < 128,
    ensures
        ref_quiesce_s(c, st, p, alpha, beta, ply) == ({
            let s0 = st.counted();
            match ref_q_stand(c, s0, p, alpha, beta, ply) {
                Stand::Out(v) => (s0, v),
                Stand::On { alpha: a, eval, best } => ref_q_finished(
                    p,
                    ref_q_loop_s(
                        c,
                        p,
                        ref_q_start(s0, p, a, best),
                        reply_slots(s0.trail.played_moves, ply),
                        beta,
                        ply,
                    ),
                    a,
                    beta,
                    eval,
                    ply,
                ),
            }
        }),
{
    reveal(ref_quiesce_s);
    reveal(ref_q_loop_s);
    reveal(loaded);
}

/// Its move loop, one move at a time.
pub proof fn lemma_ref_q_loop(
    c: Setup,
    p: Position,
    r: RefQRun,
    slots: Slots,
    beta: int,
    ply: int,
)
    requires
        0 <= ply < 127,
        r.order.idx >= 0,
    ensures
        r.done ==> ref_q_loop_s(c, p, r, slots, beta, ply) == r,
        !r.done ==> ref_q_loop_s(c, p, r, slots, beta, ply) == ({
            let (order, given) = next_s(r.order, p, r.st.refs, slots, ply);
            match given {
                None => RefQRun { order, ..r },
                Some(mv) => {
                    let r1 = RefQRun { order, count: r.count + 1, ..r };
                    if !p.in_check() && !see_ge_s(p, mv, 0) {
                        ref_q_loop_s(c, p, r1, slots, beta, ply)
                    } else {
                        let (st, score) = ref_q_child_s(c, p, r.st, mv, r.alpha, beta, ply);
                        ref_q_loop_s(
                            c,
                            p,
                            ref_q_absorbed(RefQRun { st, ..r1 }, mv, score, beta),
                            slots,
                            beta,
                            ply,
                        )
                    }
                },
            }
        }),
{
    reveal_with_fuel(ref_q_loop_s, 2);
    reveal(ref_q_child_s);
    lemma_next_uses(r.order, p, r.st.refs, slots, ply);
}

/// Its child, one ply at a time.
pub proof fn lemma_ref_q_child(
    c: Setup,
    p: Position,
    st: State,
    mv: Move,
    alpha: int,
    beta: int,
    ply: int,
)
    requires
        0 <= ply < 127,
    ensures
        ref_q_child_s(c, p, st, mv, alpha, beta, ply) == ({
            let q = after(p, mv);
            let s0 = st.on_trail(st.trail.with_move(ply, mv).with_key(hash_s(q)));
            let (s1, v) = ref_quiesce_s(c, s0, q, -beta, -alpha, ply + 1);
            (s1.on_trail(s1.trail.without_key()), -v)
        }),
{
    reveal(ref_q_child_s);
    reveal(ref_quiesce_s);
}

// ---------------------------------------------------------------------------
// The full search
// ---------------------------------------------------------------------------
/// Drawn, too deep, or beyond any mate still possible.
pub open spec fn ref_gate_s(
    c: Setup,
    st: State,
    p: Position,
    alpha: int,
    beta: int,
    ply: int,
) -> (Option<int>, int) {
    let a = max2(alpha, mate_s(ply));
    if ply == 0 {
        (None, alpha)
    } else if st.trail.drawn(hash_s(p), p.halfmove as int) {
        (Some(0), alpha)
    } else if ply >= MAX_PLY - 1 {
        (Some(eval_s(c.net, p, false)), alpha)
    } else if a >= min2(beta, -mate_s(ply + 1)) {
        (Some(a), a)
    } else {
        (None, a)
    }
}

/// The entry a node may use: none while a move is excluded.
pub open spec fn ref_entry(tt: Table, p: Position, excl: Option<Move>) -> Option<TtEntry> {
    if excl is Some { None } else { probe_s(tt, hash_s(p)) }
}

/// The stored score that ends the node, if one does.
pub open spec fn ref_table_cut(
    p: Position,
    entry: Option<TtEntry>,
    depth: int,
    alpha: int,
    beta: int,
    ply: int,
    pv: bool,
) -> Option<int> {
    match entry {
        Some(e) if e.bounded() && !pv && e.depth >= depth && answers(
            e,
            from_tt(e.score as int, ply),
            alpha,
            beta,
        ) && p.halfmove < 90 => Some(from_tt(e.score as int, ply)),
        _ => None,
    }
}

/// A node's evaluations, and the state with them written down.
#[verifier::opaque]
pub open spec fn ref_weighed(c: Setup, st: State, p: Position, n: Node) -> (State, Node) {
    let ply = n.ply as int;
    if n.in_check {
        (
            st.on_trail(st.trail.with_eval(ply, NO_EVAL as int)),
            Node { raw: NO_EVAL, eval: NO_EVAL, sharp: NO_EVAL, improving: false, ..n },
        )
    } else {
        let (tt, raw) = raw_s(c.net, false, st.tt, p, n.entry);
        let trail = st.trail.with_eval(ply, raw);
        (
            State { tt, trail, ..st },
            Node {
                raw: raw as i32,
                eval: raw as i32,
                sharp: sharpened(n.entry, raw, ply) as i32,
                improving: ply >= 2 && trail.eval_stack[ply - 2] != NO_EVAL && raw
                    > trail.eval_stack[ply - 2],
                ..n
            },
        )
    }
}

/// Reverse futility.
pub open spec fn ref_rfp_s(n: Node) -> Option<int> {
    if !n.pv_node && n.depth < 9 && !n.in_check && n.excluded is None && abs1(n.sharp as int)
        < MATE_IN_MAX && n.sharp - 150 * (n.depth - b2i(n.improving)) >= n.beta {
        Some(n.sharp as int)
    } else {
        None
    }
}

pub open spec fn ref_null_tries(st: State, p: Position, n: Node) -> bool {
    &&& !n.pv_node
    &&& !n.in_check
    &&& n.excluded is None
    &&& n.sharp >= n.beta
    &&& n.sharp >= n.raw
    &&& n.raw >= n.beta - 20 * n.depth - 40 * b2i(n.improving) + 100
    &&& has_force(p, p.side)
    &&& !st.trail.just_passed(n.ply as int)
}

/// The depth of a null move search: the reduction grows with how far above beta
/// the node already is, not with depth.
pub open spec fn ref_null_depth(n: Node) -> int {
    max2(n.depth - (4 + min2(tdiv(n.sharp - n.beta, 200), 6)), 0)
}

/// Two plies less at a principal variation node with no move to try first.
pub open spec fn ref_eased(n: Node) -> Node {
    if n.ply > 0 && n.pv_node && !n.in_check && table_move(n.entry) is None {
        Node { depth: (n.depth - 2) as i32, ..n }
    } else {
        n
    }
}

/// A staged node part way through its moves.
#[verifier::ext_equal]
pub struct RefRun {
    pub st: State,
    pub order: OrderView,
    pub alpha: int,
    pub best: int,
    pub best_move: Option<Move>,
    pub quiets: Seq<Move>,
    /// How many moves have been looked at.
    pub count: int,
    pub done: bool,
}

/// What the tables think of a move; nothing of a capture.
pub open spec fn move_score_s(h: HistoriesView, p: Position, mv: Move, slots: Slots) -> int {
    if mv.captures() { 0 } else { quiet_score_s(h, p, mv, slots) }
}

/// A move not worth searching at this depth.
#[verifier::opaque]
pub open spec fn ref_skips(
    p: Position,
    n: Node,
    best: int,
    alpha: int,
    mv: Move,
    score: int,
    count: int,
) -> bool {
    let d = n.depth as int;
    &&& n.ply > 0
    &&& has_force(p, p.side)
    &&& best > -MATE_IN_MAX
    &&& if !mv.quiet() {
        d < 10 && !see_ge_s(p, mv, -140 * d)
    } else {
        ||| d < 7 && count > 3 + d * d
        ||| score < -600 * (d * d)
        ||| !n.in_check && d < 12 && n.raw != NO_EVAL && n.raw + 100 + 150 * d + tdiv(score, 75)
            < alpha
        ||| d < 10 && !see_ge_s(p, mv, -10 * (d + d * d))
    }
}

/// The stored score to measure the table's move against.
pub open spec fn ref_singular_tries(n: Node, mv: Move) -> Option<int> {
    match n.entry {
        Some(e) if n.ply > 0 && n.depth > 4 && n.excluded is None && Some(mv) == e.best && e.depth
            >= n.depth - 3 && floor_or_exact(e.bound) && !mated(
            from_tt(e.score as int, n.ply as int),
        ) => Some(from_tt(e.score as int, n.ply as int)),
        _ => None,
    }
}

pub open spec fn ref_singular_verdict(n: Node, s: int, target: int) -> Singular {
    if s < target {
        if !n.pv_node && s < target - 40 && n.ply < n.depth {
            Singular::Extend(2)
        } else {
            Singular::Extend(1)
        }
    } else if !n.pv_node && target >= n.beta {
        Singular::Return(target)
    } else {
        Singular::Extend(0)
    }
}

/// The depth before the move is taken off: a check is worth one ply whatever else
/// was found, where the evaluation is further than seventy-five from level.
pub open spec fn ref_depth(n: Node, q: Position, ext: int) -> int {
    n.depth + (if q.in_check() && n.raw != NO_EVAL && abs1(n.raw as int) > 75 { 1 } else { ext })
}

/// A late move is searched shallower first.
pub open spec fn ref_reduces(n: Node, mv: Move, count: int) -> bool {
    n.depth > 2 && count > 1 + 2 * b2i(n.ply == 0) && (!n.pv_node || mv.quiet())
}

pub open spec fn ref_reduction(n: Node, mv: Move, score: int, count: int) -> int {
    log2_floor(count) / 2 + log2_floor(n.depth as int) / 2 - b2i(!mv.quiet() || n.pv_node) - tdiv(
        score + 15000,
        30000,
    ) + 2 * b2i(n.cut_node) + 1
}

pub open spec fn ref_filed(r: RefRun, mv: Move) -> RefRun {
    if mv.quiet() { RefRun { quiets: r.quiets.push(mv), ..r } } else { r }
}

/// What a score does to a staged node.
pub open spec fn ref_absorbed(n: Node, r: RefRun, mv: Move, score: int) -> RefRun {
    if score > r.best && score > r.alpha {
        let r1 = RefRun {
            st: r.st.on_trail(r.st.trail.with_line(n.ply as int, mv)),
            best: score,
            alpha: score,
            best_move: Some(mv),
            ..r
        };
        if score >= n.beta { RefRun { done: true, ..r1 } } else { ref_filed(r1, mv) }
    } else if score > r.best {
        ref_filed(RefRun { best: score, ..r }, mv)
    } else {
        ref_filed(r, mv)
    }
}

pub open spec fn piece_or_pawn(p: Position, mv: Move) -> int {
    match p.piece_s(mv.from as int) {
        Some((pt, c)) => pt.index(),
        None => 0,
    }
}

/// A reduced move that had to be searched again has told something either way.
pub open spec fn ref_again(
    st: State,
    p: Position,
    n: Node,
    mv: Move,
    slots: Slots,
    better: bool,
) -> State {
    st.with_refs(
        bonus_added(
            st.refs,
            p,
            mv,
            piece_or_pawn(p, mv),
            slots,
            if better {
                hist_bonus_s(n.depth as int)
            } else {
                -hist_bonus_s(n.depth as int)
            },
        ),
    )
}

/// The quiet moves of the first `n` but the best charged.
pub open spec fn ref_charged(
    h: HistoriesView,
    p: Position,
    best: Move,
    slots: Slots,
    bonus: int,
    quiets: Seq<Move>,
    n: int,
) -> HistoriesView
    decreases n,
{
    if n <= 0 {
        h
    } else {
        let g = ref_charged(h, p, best, slots, bonus, quiets, n - 1);
        if quiets[n - 1] == best {
            g
        } else {
            bonus_added(g, p, quiets[n - 1], piece_or_pawn(p, quiets[n - 1]), slots, -bonus)
        }
    }
}

/// The tables once the moves are done: a quiet best move is credited and the
/// quiet moves tried are charged.
pub open spec fn ref_learned(
    h: HistoriesView,
    p: Position,
    n: Node,
    r: RefRun,
    slots: Slots,
) -> HistoriesView {
    match r.best_move {
        Some(m) if m.quiet() => ref_charged(
            best_credited(
                h,
                p,
                m,
                piece_or_pawn(p, m),
                slots,
                n.ply as int,
                n.depth as int,
            ),
            p,
            m,
            slots,
            hist_bonus_s(n.depth as int),
            r.quiets,
            r.quiets.len() as int,
        ),
        _ => h,
    }
}

pub open spec fn ref_bound(n: Node, best: int, alpha: int) -> Bound {
    if best >= n.beta {
        Bound::Lower
    } else if n.pv_node && best > alpha {
        Bound::Exact
    } else {
        Bound::Upper
    }
}

/// The end of a staged node.
#[verifier::opaque]
pub open spec fn ref_finished(p: Position, n: Node, r: RefRun, slots: Slots, alpha: int) -> (
    State,
    int,
) {
    let st = r.st.with_refs(ref_learned(r.st.refs, p, n, r, slots));
    if r.count == 0 {
        if n.excluded is Some {
            (st, r.alpha)
        } else if n.in_check {
            (st, mate_s(n.ply as int))
        } else {
            (st, 0)
        }
    } else if n.excluded is None {
        (
            st.with_tt(
                store_s(
                    st.tt,
                    hash_s(p),
                    n.depth as int,
                    to_tt(r.best, n.ply as int),
                    ref_bound(n, r.best, alpha),
                    r.best_move,
                    n.tt_pv,
                    if n.in_check { TT_EVAL_NONE } else { n.raw as i16 },
                ),
            ),
            r.best,
        )
    } else {
        (st, r.best)
    }
}

pub open spec fn ref_start(st: State, p: Position, n: Node, alpha: int) -> RefRun {
    RefRun {
        st,
        order: loaded(new_order(table_move(n.entry), n.depth as int, false), p, legal(p)),
        alpha,
        best: -INF,
        best_move: None,
        quiets: Seq::empty(),
        count: 0,
        done: false,
    }
}

/// How a staged node's move loop ends.
pub enum RefOutcome {
    Done(RefRun),
    Early(State, int),
}

/// The null move search: the answer, if the position survives passing.
#[verifier::opaque]
pub open spec fn ref_null_s(c: Setup, st: State, p: Position, n: Node) -> (State, Option<int>)
    decreases 128 - n.ply, open_node(n), 1int, 0int,
    when n.ply < 127
{
    let ply = n.ply as int;
    let q = after_null(p);
    let s0 = st.on_trail(st.trail.with_key(hash_s(q)).with_null(ply, true));
    let (s1, v) = ref_s(
        c,
        s0,
        q,
        ref_null_depth(n),
        -n.beta,
        -n.beta + 1,
        ply + 1,
        false,
        !n.cut_node,
        None,
    );
    let s2 = s1.on_trail(s1.trail.with_null(ply, false).without_key());
    (
        s2,
        if -v >= n.beta {
            Some(if mated(-v) { n.beta as int } else { -v })
        } else {
            None
        },
    )
}

/// Every other move against a window just below the table's score.
#[verifier::opaque]
pub open spec fn ref_singular_s(c: Setup, st: State, p: Position, n: Node, mv: Move) -> (
    State,
    Singular,
)
    decreases 128 - n.ply, open_node(n), 1int, 0int,
    when n.ply < 127
{
    match ref_singular_tries(n, mv) {
        None => (st, Singular::Extend(0)),
        Some(ts) => {
            let target = ts - 2 * n.depth;
            let (s1, s) = ref_s(
                c,
                st,
                p,
                tdiv(n.depth - 1, 2),
                target - 1,
                target,
                n.ply as int,
                false,
                n.cut_node,
                Some(mv),
            );
            (s1, ref_singular_verdict(n, s, target))
        },
    }
}

/// A child searched: reduced first where it comes late, then without a window,
/// then with one on the principal variation.
#[verifier::opaque]
pub open spec fn ref_child_s(
    c: Setup,
    st: State,
    q: Position,
    n: Node,
    mv: Move,
    alpha: int,
    d: int,
    score: int,
    count: int,
) -> (State, int, bool)
    decreases 128 - n.ply, open_node(n), 1int, 0int,
    when n.ply < 127
{
    let ply = n.ply + 1;
    let beta = n.beta as int;
    let late = ref_reduces(n, mv, count);
    let r = ref_reduction(n, mv, score, count);
    let (s1, v1) = if late {
        ref_s(
            c,
            st,
            q,
            clamp3(d - r - 1, 0, d - 1),
            -alpha - 1,
            -alpha,
            ply,
            false,
            true,
            None,
        )
    } else {
        (st, INF as int)
    };
    let full = if late { -v1 > alpha && r > 0 } else { !(n.pv_node && count == 1) };
    let (s2, v2) = if full {
        ref_s(c, s1, q, d - 1, -alpha - 1, -alpha, ply, false, !n.cut_node, None)
    } else {
        (s1, v1)
    };
    let (s3, v3) = if n.pv_node && (count == 1 || (-v2 > alpha && (n.ply == 0 || -v2 < beta))) {
        ref_s(c, s2, q, d - 1, -beta, -alpha, ply, true, false, None)
    } else {
        (s2, v2)
    };
    (s3, -v3, late && full)
}

/// One move played, searched and taken back.
#[verifier::opaque]
pub open spec fn ref_tried_s(
    c: Setup,
    p: Position,
    n: Node,
    st: State,
    mv: Move,
    alpha: int,
    ext: int,
    score: int,
    count: int,
) -> (State, int, bool)
    decreases 128 - n.ply, open_node(n), 2int, 0int,
    when n.ply < 127
{
    let q = after(p, mv);
    let s0 = st.on_trail(st.trail.with_move(n.ply as int, mv).with_key(hash_s(q)));
    let (s1, v, again) = ref_child_s(
        c,
        s0,
        q,
        n,
        mv,
        alpha,
        ref_depth(n, q, ext),
        score,
        count,
    );
    (s1.on_trail(s1.trail.without_key()), v, again)
}

/// The moves of a staged node, as the picker hands them out.
#[verifier::opaque]
pub open spec fn ref_loop_s(c: Setup, p: Position, n: Node, r: RefRun, slots: Slots) -> RefOutcome
    decreases 128 - n.ply, open_node(n), 3int, fuel(r.order),
    when n.ply < 127 && r.order.idx >= 0
{
    proof {
        lemma_next_uses(r.order, p, r.st.refs, slots, n.ply as int);
    }
    if r.done {
        RefOutcome::Done(r)
    } else {
        let (order, given) = next_s(r.order, p, r.st.refs, slots, n.ply as int);
        match given {
            None => RefOutcome::Done(RefRun { order, ..r }),
            Some(mv) => if Some(mv) == n.excluded {
                ref_loop_s(c, p, n, RefRun { order, ..r }, slots)
            } else {
                let r1 = RefRun { order, count: r.count + 1, ..r };
                let score = move_score_s(r.st.refs, p, mv, slots);
                if ref_skips(p, n, r.best, r.alpha, mv, score, r1.count) {
                    ref_loop_s(c, p, n, r1, slots)
                } else {
                    let (s1, sing) = ref_singular_s(c, r.st, p, n, mv);
                    match sing {
                        Singular::Return(v) => RefOutcome::Early(s1, v),
                        Singular::Extend(ext) => {
                            let (s2, v, again) = ref_tried_s(
                                c,
                                p,
                                n,
                                s1,
                                mv,
                                r.alpha,
                                ext,
                                score,
                                r1.count,
                            );
                            let s3 = if again {
                                ref_again(s2, p, n, mv, slots, v > r.best)
                            } else {
                                s2
                            };
                            ref_loop_s(
                                c,
                                p,
                                n,
                                ref_absorbed(n, RefRun { st: s3, ..r1 }, mv, v),
                                slots,
                            )
                        },
                    }
                }
            },
        }
    }
}

/// A staged node past its table entry and its evaluation.
#[verifier::opaque]
pub open spec fn ref_interior_s(
    c: Setup,
    st: State,
    p: Position,
    n: Node,
    slots: Slots,
    alpha: int,
) -> (State, int)
    decreases 128 - n.ply, open_node(n), 4int, 0int,
    when n.ply < 127
{
    let m = ref_eased(n);
    if ref_rfp_s(n) is Some {
        (st, ref_rfp_s(n)->0)
    } else {
        let (s1, cut) = if ref_null_tries(st, p, n) {
            ref_null_s(c, st, p, n)
        } else {
            (st, None)
        };
        if cut is Some {
            (s1, cut->0)
        } else if m.depth <= 0 {
            ref_quiesce_s(c, s1, p, alpha, n.beta as int, n.ply as int)
        } else {
            proof {
                reveal(loaded);
            }
            match ref_loop_s(c, p, m, ref_start(s1, p, m, alpha), slots) {
                RefOutcome::Early(s2, v) => (s2, v),
                RefOutcome::Done(r) => ref_finished(p, m, r, slots, alpha),
            }
        }
    }
}

/// A staged node that has only been looked up.
pub open spec fn ref_node_of(
    st: State,
    p: Position,
    depth: int,
    beta: int,
    ply: int,
    pv: bool,
    cut: bool,
    excl: Option<Move>,
) -> Node {
    let entry = ref_entry(st.tt, p, excl);
    Node {
        entry,
        tt_pv: pv || (entry matches Some(e) && e.pv),
        ..node_of(st, p, depth, beta, ply, pv, cut, excl)
    }
}

/// A staged node whose own count is in, and whose line is empty.
#[verifier::opaque]
pub open spec fn ref_entered_s(
    c: Setup,
    st: State,
    p: Position,
    depth: int,
    alpha: int,
    beta: int,
    ply: int,
    pv: bool,
    cut: bool,
    excl: Option<Move>,
) -> (State, int)
    decreases 128 - ply, (if excl is None { 1int } else { 0 }), 5int, 0int,
    when 0 <= ply < 128
{
    let entry = ref_entry(st.tt, p, excl);
    let (out, a) = ref_gate_s(c, st, p, alpha, beta, ply);
    let hit = ref_table_cut(p, entry, depth, a, beta, ply, pv);
    if out is Some {
        (st, out->0)
    } else if hit is Some {
        (st, hit->0)
    } else {
        proof {
            reveal(ref_weighed);
        }
        let (s2, n) = ref_weighed(
            c,
            st,
            p,
            ref_node_of(st, p, depth, beta, ply, pv, cut, excl),
        );
        ref_interior_s(c, s2, p, n, reply_slots(st.trail.played_moves, ply), a)
    }
}

/// The staged search of a position to a depth with a window: the state after
/// it, and the score.
#[verifier::opaque]
pub open spec fn ref_s(
    c: Setup,
    st: State,
    p: Position,
    depth: int,
    alpha: int,
    beta: int,
    ply: int,
    pv: bool,
    cut: bool,
    excl: Option<Move>,
) -> (State, int)
    decreases 128 - ply, (if excl is None { 1int } else { 0 }), 6int, 0int,
    when 0 <= ply < 128
{
    let s0 = st.on_trail(st.trail.without_line(ply));
    if depth <= 0 {
        ref_quiesce_s(c, s0, p, alpha, beta, ply)
    } else {
        ref_entered_s(c, s0.counted(), p, depth, alpha, beta, ply, pv, cut, excl)
    }
}

/// The null move search, one ply at a time.
pub proof fn lemma_ref_null(c: Setup, st: State, p: Position, n: Node)
    requires
        n.ply < 127,
    ensures
        ref_null_s(c, st, p, n) == ({
            let ply = n.ply as int;
            let q = after_null(p);
            let s0 = st.on_trail(st.trail.with_key(hash_s(q)).with_null(ply, true));
            let (s1, v) = ref_s(
                c,
                s0,
                q,
                ref_null_depth(n),
                -n.beta,
                -n.beta + 1,
                ply + 1,
                false,
                !n.cut_node,
                None,
            );
            let s2 = s1.on_trail(s1.trail.with_null(ply, false).without_key());
            (
                s2,
                if -v >= n.beta {
                    Some(if mated(-v) { n.beta as int } else { -v })
                } else {
                    None
                },
            )
        }),
{
    reveal(ref_null_s);
    reveal(ref_s);
}

/// The singular search, one ply at a time.
pub proof fn lemma_ref_singular(c: Setup, st: State, p: Position, n: Node, mv: Move)
    requires
        n.ply < 127,
    ensures
        ref_singular_tries(n, mv) is None ==> ref_singular_s(c, st, p, n, mv) == (
            st,
            Singular::Extend(0),
        ),
        ref_singular_tries(n, mv) matches Some(ts) ==> ref_singular_s(c, st, p, n, mv) == ({
            let target = ts - 2 * n.depth;
            let (s1, s) = ref_s(
                c,
                st,
                p,
                tdiv(n.depth - 1, 2),
                target - 1,
                target,
                n.ply as int,
                false,
                n.cut_node,
                Some(mv),
            );
            (s1, ref_singular_verdict(n, s, target))
        }),
{
    reveal(ref_singular_s);
    reveal(ref_s);
}

/// A move played, one ply at a time.
pub proof fn lemma_ref_tried(
    c: Setup,
    p: Position,
    n: Node,
    st: State,
    mv: Move,
    alpha: int,
    ext: int,
    score: int,
    count: int,
)
    requires
        n.ply < 127,
    ensures
        ref_tried_s(c, p, n, st, mv, alpha, ext, score, count) == ({
            let q = after(p, mv);
            let s0 = st.on_trail(st.trail.with_move(n.ply as int, mv).with_key(hash_s(q)));
            let (s1, v, again) = ref_child_s(
                c,
                s0,
                q,
                n,
                mv,
                alpha,
                ref_depth(n, q, ext),
                score,
                count,
            );
            (s1.on_trail(s1.trail.without_key()), v, again)
        }),
{
    reveal(ref_tried_s);
    reveal(ref_child_s);
}

/// The move loop, one move at a time.
pub proof fn lemma_ref_loop(c: Setup, p: Position, n: Node, r: RefRun, slots: Slots)
    requires
        n.ply < 127,
        r.order.idx >= 0,
    ensures
        r.done ==> ref_loop_s(c, p, n, r, slots) == RefOutcome::Done(r),
        !r.done ==> ({
            let (order, given) = next_s(r.order, p, r.st.refs, slots, n.ply as int);
            let now = ref_loop_s(c, p, n, r, slots);
            match given {
                None => now == RefOutcome::Done(RefRun { order, ..r }),
                Some(mv) => if Some(mv) == n.excluded {
                    now == ref_loop_s(c, p, n, RefRun { order, ..r }, slots)
                } else {
                    let r1 = RefRun { order, count: r.count + 1, ..r };
                    let score = move_score_s(r.st.refs, p, mv, slots);
                    if ref_skips(p, n, r.best, r.alpha, mv, score, r1.count) {
                        now == ref_loop_s(c, p, n, r1, slots)
                    } else {
                        let (s1, sing) = ref_singular_s(c, r.st, p, n, mv);
                        match sing {
                            Singular::Return(v) => now == RefOutcome::Early(s1, v),
                            Singular::Extend(ext) => {
                                let (s2, v, again) = ref_tried_s(
                                    c,
                                    p,
                                    n,
                                    s1,
                                    mv,
                                    r.alpha,
                                    ext,
                                    score,
                                    r1.count,
                                );
                                let s3 = if again {
                                    ref_again(s2, p, n, mv, slots, v > r.best)
                                } else {
                                    s2
                                };
                                now == ref_loop_s(
                                    c,
                                    p,
                                    n,
                                    ref_absorbed(n, RefRun { st: s3, ..r1 }, mv, v),
                                    slots,
                                )
                            },
                        }
                    }
                },
            }
        }),
{
    reveal_with_fuel(ref_loop_s, 2);
    reveal(ref_singular_s);
    reveal(ref_tried_s);
    lemma_next_uses(r.order, p, r.st.refs, slots, n.ply as int);
}

/// A staged node past its evaluation, step by step.
pub proof fn lemma_ref_interior(
    c: Setup,
    st: State,
    p: Position,
    n: Node,
    slots: Slots,
    alpha: int,
)
    requires
        n.ply < 127,
    ensures
        ref_interior_s(c, st, p, n, slots, alpha) == ({
            let m = ref_eased(n);
            let (s1, cut) = if ref_null_tries(st, p, n) {
                ref_null_s(c, st, p, n)
            } else {
                (st, None)
            };
            if ref_rfp_s(n) is Some {
                (st, ref_rfp_s(n)->0)
            } else if cut is Some {
                (s1, cut->0)
            } else if m.depth <= 0 {
                ref_quiesce_s(c, s1, p, alpha, n.beta as int, n.ply as int)
            } else {
                match ref_loop_s(c, p, m, ref_start(s1, p, m, alpha), slots) {
                    RefOutcome::Early(s2, v) => (s2, v),
                    RefOutcome::Done(r) => ref_finished(p, m, r, slots, alpha),
                }
            }
        }),
{
    reveal(ref_interior_s);
    reveal(ref_null_s);
    reveal(ref_loop_s);
    reveal(loaded);
}

/// A staged node past its own count, step by step.
pub proof fn lemma_ref_entered(
    c: Setup,
    st: State,
    p: Position,
    depth: int,
    alpha: int,
    beta: int,
    ply: int,
    pv: bool,
    cut: bool,
    excl: Option<Move>,
)
    requires
        0 <= ply < 128,
    ensures
        ref_entered_s(c, st, p, depth, alpha, beta, ply, pv, cut, excl) == ({
            let entry = ref_entry(st.tt, p, excl);
            let (out, a) = ref_gate_s(c, st, p, alpha, beta, ply);
            let hit = ref_table_cut(p, entry, depth, a, beta, ply, pv);
            if out is Some {
                (st, out->0)
            } else if hit is Some {
                (st, hit->0)
            } else {
                let (s2, n) = ref_weighed(
                    c,
                    st,
                    p,
                    ref_node_of(st, p, depth, beta, ply, pv, cut, excl),
                );
                ref_interior_s(c, s2, p, n, reply_slots(st.trail.played_moves, ply), a)
            }
        }),
{
    reveal(ref_entered_s);
    reveal(ref_interior_s);
    reveal(ref_weighed);
}

/// A staged node, step by step.
pub proof fn lemma_ref(
    c: Setup,
    st: State,
    p: Position,
    depth: int,
    alpha: int,
    beta: int,
    ply: int,
    pv: bool,
    cut: bool,
    excl: Option<Move>,
)
    requires
        0 <= ply < 128,
    ensures
        ref_s(c, st, p, depth, alpha, beta, ply, pv, cut, excl) == ({
            let s0 = st.on_trail(st.trail.without_line(ply));
            if depth <= 0 {
                ref_quiesce_s(c, s0, p, alpha, beta, ply)
            } else {
                ref_entered_s(c, s0.counted(), p, depth, alpha, beta, ply, pv, cut, excl)
            }
        }),
{
    reveal(ref_s);
    reveal(ref_entered_s);
}

// ---------------------------------------------------------------------------
// Counting
// ---------------------------------------------------------------------------
/// The nodes counted once a staged move loop is over.
pub open spec fn ref_loop_nodes(o: RefOutcome) -> int {
    match o {
        RefOutcome::Done(r) => r.st.nodes,
        RefOutcome::Early(st, v) => st.nodes,
    }
}

/// A staged quiescence node counts itself and whatever it looks at.
pub proof fn lemma_ref_quiesce_counts(
    c: Setup,
    st: State,
    p: Position,
    alpha: int,
    beta: int,
    ply: int,
)
    requires
        0 <= ply < 128,
    ensures
        ref_quiesce_s(c, st, p, alpha, beta, ply).0.nodes > st.nodes,
    decreases 128 - ply, 2int, 0int,
{
    lemma_ref_quiesce(c, st, p, alpha, beta, ply);
    let s0 = st.counted();
    if let Stand::On { alpha: a, eval, best } = ref_q_stand(c, s0, p, alpha, beta, ply) {
        reveal(loaded);
        lemma_ref_q_loop_counts(
            c,
            p,
            ref_q_start(s0, p, a, best),
            reply_slots(s0.trail.played_moves, ply),
            beta,
            ply,
        );
    }
}

/// Its move loop takes no node back, and counts those of the move at hand.
pub proof fn lemma_ref_q_loop_counts(
    c: Setup,
    p: Position,
    r: RefQRun,
    slots: Slots,
    beta: int,
    ply: int,
)
    requires
        0 <= ply < 127,
        r.order.idx >= 0,
    ensures
        ({
            let end = ref_q_loop_s(c, p, r, slots, beta, ply).st.nodes;
            &&& r.st.nodes <= end
            &&& !r.done ==> (next_s(r.order, p, r.st.refs, slots, ply).1 matches Some(mv) ==> (
            p.in_check() || see_ge_s(p, mv, 0) ==> ref_q_child_s(
                c,
                p,
                r.st,
                mv,
                r.alpha,
                beta,
                ply,
            ).0.nodes <= end))
        }),
    decreases 128 - ply, 1int, fuel(r.order),
{
    lemma_ref_q_loop(c, p, r, slots, beta, ply);
    lemma_next_uses(r.order, p, r.st.refs, slots, ply);
    if !r.done {
        let (order, given) = next_s(r.order, p, r.st.refs, slots, ply);
        if let Some(mv) = given {
            let r1 = RefQRun { order, count: r.count + 1, ..r };
            if !p.in_check() && !see_ge_s(p, mv, 0) {
                lemma_ref_q_loop_counts(c, p, r1, slots, beta, ply);
            } else {
                lemma_ref_q_child_counts(c, p, r.st, mv, r.alpha, beta, ply);
                let (st, score) = ref_q_child_s(c, p, r.st, mv, r.alpha, beta, ply);
                lemma_ref_q_loop_counts(
                    c,
                    p,
                    ref_q_absorbed(RefQRun { st, ..r1 }, mv, score, beta),
                    slots,
                    beta,
                    ply,
                );
            }
        }
    }
}

proof fn lemma_ref_q_child_counts(
    c: Setup,
    p: Position,
    st: State,
    mv: Move,
    alpha: int,
    beta: int,
    ply: int,
)
    requires
        0 <= ply < 127,
    ensures
        ref_q_child_s(c, p, st, mv, alpha, beta, ply).0.nodes > st.nodes,
    decreases 128 - ply, 0int, 0int,
{
    lemma_ref_q_child(c, p, st, mv, alpha, beta, ply);
    let q = after(p, mv);
    let s0 = st.on_trail(st.trail.with_move(ply, mv).with_key(hash_s(q)));
    lemma_ref_quiesce_counts(c, s0, q, -beta, -alpha, ply + 1);
}

/// A staged node counts itself and whatever it looks at.
pub proof fn lemma_ref_counts(
    c: Setup,
    st: State,
    p: Position,
    depth: int,
    alpha: int,
    beta: int,
    ply: int,
    pv: bool,
    cut: bool,
    excl: Option<Move>,
)
    requires
        0 <= ply < 128,
    ensures
        ref_s(c, st, p, depth, alpha, beta, ply, pv, cut, excl).0.nodes > st.nodes,
    decreases 128 - ply, (if excl is None { 1int } else { 0 }), 6int, 0int,
{
    lemma_ref(c, st, p, depth, alpha, beta, ply, pv, cut, excl);
    let s0 = st.on_trail(st.trail.without_line(ply));
    lemma_ref_quiesce_counts(c, s0, p, alpha, beta, ply);
    lemma_ref_entered_counts(c, s0.counted(), p, depth, alpha, beta, ply, pv, cut, excl);
}

proof fn lemma_ref_entered_counts(
    c: Setup,
    st: State,
    p: Position,
    depth: int,
    alpha: int,
    beta: int,
    ply: int,
    pv: bool,
    cut: bool,
    excl: Option<Move>,
)
    requires
        0 <= ply < 128,
    ensures
        ref_entered_s(c, st, p, depth, alpha, beta, ply, pv, cut, excl).0.nodes >= st.nodes,
    decreases 128 - ply, (if excl is None { 1int } else { 0 }), 5int, 0int,
{
    lemma_ref_entered(c, st, p, depth, alpha, beta, ply, pv, cut, excl);
    let entry = ref_entry(st.tt, p, excl);
    let (out, a) = ref_gate_s(c, st, p, alpha, beta, ply);
    let hit = ref_table_cut(p, entry, depth, a, beta, ply, pv);
    if out is None && hit is None {
        reveal(ref_weighed);
        let (s2, n) = ref_weighed(
            c,
            st,
            p,
            ref_node_of(st, p, depth, beta, ply, pv, cut, excl),
        );
        lemma_ref_interior_counts(c, s2, p, n, reply_slots(st.trail.played_moves, ply), a);
    }
}

/// A staged node past its evaluation takes no node back, and its pass counts no
/// more than it does.
pub proof fn lemma_ref_interior_counts(
    c: Setup,
    st: State,
    p: Position,
    n: Node,
    slots: Slots,
    alpha: int,
)
    requires
        n.ply < 127,
    ensures
        st.nodes <= ref_interior_s(c, st, p, n, slots, alpha).0.nodes,
        ref_rfp_s(n) is None && ref_null_tries(st, p, n) ==> ref_null_s(c, st, p, n).0.nodes
            <= ref_interior_s(c, st, p, n, slots, alpha).0.nodes,
    decreases 128 - n.ply, open_node(n), 4int, 0int,
{
    lemma_ref_interior(c, st, p, n, slots, alpha);
    lemma_ref_null_counts(c, st, p, n);
    let s1 = if ref_null_tries(st, p, n) { ref_null_s(c, st, p, n).0 } else { st };
    let m = ref_eased(n);
    lemma_ref_quiesce_counts(c, s1, p, alpha, n.beta as int, n.ply as int);
    reveal(loaded);
    let r0 = ref_start(s1, p, m, alpha);
    lemma_ref_loop_counts(c, p, m, r0, slots);
    if let RefOutcome::Done(r) = ref_loop_s(c, p, m, r0, slots) {
        lemma_ref_finished_counts(p, m, r, slots, alpha);
    }
}

pub proof fn lemma_ref_finished_counts(
    p: Position,
    n: Node,
    r: RefRun,
    slots: Slots,
    alpha: int,
)
    ensures
        ref_finished(p, n, r, slots, alpha).0.nodes == r.st.nodes,
{
    reveal(ref_finished);
}

pub proof fn lemma_ref_null_counts(c: Setup, st: State, p: Position, n: Node)
    requires
        n.ply < 127,
    ensures
        st.nodes <= ref_null_s(c, st, p, n).0.nodes,
    decreases 128 - n.ply, open_node(n), 1int, 0int,
{
    lemma_ref_null(c, st, p, n);
    let ply = n.ply as int;
    let q = after_null(p);
    lemma_ref_counts(
        c,
        st.on_trail(st.trail.with_key(hash_s(q)).with_null(ply, true)),
        q,
        ref_null_depth(n),
        -n.beta,
        -n.beta + 1,
        ply + 1,
        false,
        !n.cut_node,
        None,
    );
}

proof fn lemma_ref_singular_counts(c: Setup, st: State, p: Position, n: Node, mv: Move)
    requires
        n.ply < 127,
    ensures
        st.nodes <= ref_singular_s(c, st, p, n, mv).0.nodes,
    decreases 128 - n.ply, open_node(n), 1int, 0int,
{
    lemma_ref_singular(c, st, p, n, mv);
    if let Some(ts) = ref_singular_tries(n, mv) {
        let target = ts - 2 * n.depth;
        lemma_ref_counts(
            c,
            st,
            p,
            tdiv(n.depth - 1, 2),
            target - 1,
            target,
            n.ply as int,
            false,
            n.cut_node,
            Some(mv),
        );
    }
}

/// A staged child's searches, each counting no less than the one before: the
/// reduced one where it comes late, and the one without a window.
pub proof fn lemma_ref_child_counts(
    c: Setup,
    st: State,
    q: Position,
    n: Node,
    mv: Move,
    alpha: int,
    d: int,
    score: int,
    count: int,
)
    requires
        n.ply < 127,
    ensures
        ({
            let ply = n.ply + 1;
            let late = ref_reduces(n, mv, count);
            let r = ref_reduction(n, mv, score, count);
            let (s1, v1) = if late {
                ref_s(
                    c,
                    st,
                    q,
                    clamp3(d - r - 1, 0, d - 1),
                    -alpha - 1,
                    -alpha,
                    ply,
                    false,
                    true,
                    None,
                )
            } else {
                (st, INF as int)
            };
            let full = if late { -v1 > alpha && r > 0 } else { !(n.pv_node && count == 1) };
            let s2 = ref_s(c, s1, q, d - 1, -alpha - 1, -alpha, ply, false, !n.cut_node, None).0;
            let end = ref_child_s(c, st, q, n, mv, alpha, d, score, count).0.nodes;
            &&& st.nodes <= s1.nodes <= end
            &&& full ==> s2.nodes <= end
        }),
    decreases 128 - n.ply, open_node(n), 1int, 0int,
{
    reveal(ref_child_s);
    reveal(ref_s);
    let ply = n.ply + 1;
    let beta = n.beta as int;
    let late = ref_reduces(n, mv, count);
    let r = ref_reduction(n, mv, score, count);
    let nd = clamp3(d - r - 1, 0, d - 1);
    lemma_ref_counts(c, st, q, nd, -alpha - 1, -alpha, ply, false, true, None);
    let (s1, v1) = if late {
        ref_s(c, st, q, nd, -alpha - 1, -alpha, ply, false, true, None)
    } else {
        (st, INF as int)
    };
    lemma_ref_counts(c, s1, q, d - 1, -alpha - 1, -alpha, ply, false, !n.cut_node, None);
    let full = if late { -v1 > alpha && r > 0 } else { !(n.pv_node && count == 1) };
    let (s2, v2) = if full {
        ref_s(c, s1, q, d - 1, -alpha - 1, -alpha, ply, false, !n.cut_node, None)
    } else {
        (s1, v1)
    };
    lemma_ref_counts(c, s2, q, d - 1, -beta, -alpha, ply, true, false, None);
}

proof fn lemma_ref_tried_counts(
    c: Setup,
    p: Position,
    n: Node,
    st: State,
    mv: Move,
    alpha: int,
    ext: int,
    score: int,
    count: int,
)
    requires
        n.ply < 127,
    ensures
        st.nodes <= ref_tried_s(c, p, n, st, mv, alpha, ext, score, count).0.nodes,
    decreases 128 - n.ply, open_node(n), 2int, 0int,
{
    lemma_ref_tried(c, p, n, st, mv, alpha, ext, score, count);
    let q = after(p, mv);
    lemma_ref_child_counts(
        c,
        st.on_trail(st.trail.with_move(n.ply as int, mv).with_key(hash_s(q))),
        q,
        n,
        mv,
        alpha,
        ref_depth(n, q, ext),
        score,
        count,
    );
}

/// The staged move loop takes no node back, and counts those of the move at
/// hand.
pub proof fn lemma_ref_loop_counts(c: Setup, p: Position, n: Node, r: RefRun, slots: Slots)
    requires
        n.ply < 127,
        r.order.idx >= 0,
    ensures
        ({
            let end = ref_loop_nodes(ref_loop_s(c, p, n, r, slots));
            &&& r.st.nodes <= end
            &&& !r.done ==> (next_s(r.order, p, r.st.refs, slots, n.ply as int).1 matches Some(mv)
                ==> (Some(mv) != n.excluded ==> ref_take_nodes(
                c,
                p,
                n,
                r.st,
                mv,
                r.alpha,
                r.best,
                r.count,
                slots,
            ) <= end))
        }),
    decreases 128 - n.ply, open_node(n), 3int, fuel(r.order),
{
    lemma_ref_loop(c, p, n, r, slots);
    lemma_next_uses(r.order, p, r.st.refs, slots, n.ply as int);
    if !r.done {
        let (order, given) = next_s(r.order, p, r.st.refs, slots, n.ply as int);
        if let Some(mv) = given {
            if Some(mv) == n.excluded {
                lemma_ref_loop_counts(c, p, n, RefRun { order, ..r }, slots);
            } else {
                let r1 = RefRun { order, count: r.count + 1, ..r };
                let score = move_score_s(r.st.refs, p, mv, slots);
                if ref_skips(p, n, r.best, r.alpha, mv, score, r1.count) {
                    lemma_ref_loop_counts(c, p, n, r1, slots);
                } else {
                    lemma_ref_singular_counts(c, r.st, p, n, mv);
                    let (s1, sing) = ref_singular_s(c, r.st, p, n, mv);
                    if let Singular::Extend(ext) = sing {
                        lemma_ref_tried_counts(
                            c,
                            p,
                            n,
                            s1,
                            mv,
                            r.alpha,
                            ext,
                            score,
                            r1.count,
                        );
                        let (s2, v, again) = ref_tried_s(
                            c,
                            p,
                            n,
                            s1,
                            mv,
                            r.alpha,
                            ext,
                            score,
                            r1.count,
                        );
                        let s3 = if again {
                            ref_again(s2, p, n, mv, slots, v > r.best)
                        } else {
                            s2
                        };
                        lemma_ref_loop_counts(
                            c,
                            p,
                            n,
                            ref_absorbed(n, RefRun { st: s3, ..r1 }, mv, v),
                            slots,
                        );
                    }
                }
            }
        }
    }
}

/// The nodes counted once one move of a staged node has been dealt with.
pub open spec fn ref_take_nodes(
    c: Setup,
    p: Position,
    n: Node,
    st: State,
    mv: Move,
    alpha: int,
    best: int,
    count: int,
    slots: Slots,
) -> int {
    let score = move_score_s(st.refs, p, mv, slots);
    if ref_skips(p, n, best, alpha, mv, score, count + 1) {
        st.nodes
    } else {
        let (s1, sing) = ref_singular_s(c, st, p, n, mv);
        match sing {
            Singular::Return(v) => s1.nodes,
            Singular::Extend(ext) => ref_tried_s(
                c,
                p,
                n,
                s1,
                mv,
                alpha,
                ext,
                score,
                count + 1,
            ).0.nodes,
        }
    }
}

/// Asking whether the table's move is the only one counts no more than dealing
/// with it.
pub proof fn lemma_ref_take_counts(
    c: Setup,
    p: Position,
    n: Node,
    st: State,
    mv: Move,
    alpha: int,
    best: int,
    count: int,
    slots: Slots,
)
    requires
        n.ply < 127,
    ensures
        !ref_skips(p, n, best, alpha, mv, move_score_s(st.refs, p, mv, slots), count + 1)
            ==> ref_singular_s(c, st, p, n, mv).0.nodes <= ref_take_nodes(
            c,
            p,
            n,
            st,
            mv,
            alpha,
            best,
            count,
            slots,
        ),
{
    let score = move_score_s(st.refs, p, mv, slots);
    let (s1, sing) = ref_singular_s(c, st, p, n, mv);
    if let Singular::Extend(ext) = sing {
        lemma_ref_tried_counts(c, p, n, s1, mv, alpha, ext, score, count + 1);
    }
}

// ---------------------------------------------------------------------------
// Laws
// ---------------------------------------------------------------------------
/// A staged node searching with a move excluded takes nothing from the table,
/// prunes nothing on the strength of its evaluation and leaves no entry behind.
pub proof fn law_staged_excluded_node_keeps_to_itself(
    tt: Table,
    st: State,
    p: Position,
    n: Node,
    r: RefRun,
    slots: Slots,
    alpha: int,
)
    requires
        n.excluded is Some,
    ensures
        ref_entry(tt, p, n.excluded) is None,
        ref_rfp_s(n) is None,
        !ref_null_tries(st, p, n),
        ref_finished(p, n, r, slots, alpha).0.tt == r.st.tt,
{
    reveal(ref_finished);
}

/// A drawn position below the root is worth nothing to either side in the staged
/// search, and costs one node.
pub proof fn law_staged_drawn_node(
    c: Setup,
    st: State,
    p: Position,
    depth: int,
    alpha: int,
    beta: int,
    ply: int,
    pv: bool,
    cut: bool,
)
    requires
        0 < ply < 128,
        0 < depth,
        st.trail.drawn(hash_s(p), p.halfmove as int),
    ensures
        ({
            let (s, v) = ref_s(c, st, p, depth, alpha, beta, ply, pv, cut, None);
            v == 0 && s.nodes == st.nodes + 1
        }),
{
    lemma_ref(c, st, p, depth, alpha, beta, ply, pv, cut, None);
    let s1 = st.on_trail(st.trail.without_line(ply)).counted();
    lemma_ref_entered(c, s1, p, depth, alpha, beta, ply, pv, cut, None);
    lemma_drawn_by_keys(st.trail, s1.trail, hash_s(p), p.halfmove as int);
}

/// The staged search too leaves a node at once where a mate already in hand
/// cannot be beaten any more.
pub proof fn law_staged_mate_distance_pruning(
    c: Setup,
    st: State,
    p: Position,
    depth: int,
    alpha: int,
    beta: int,
    ply: int,
    pv: bool,
    cut: bool,
)
    requires
        0 < ply < 127,
        0 < depth,
        !st.trail.drawn(hash_s(p), p.halfmove as int),
        max2(alpha, mate_s(ply)) >= min2(beta, -mate_s(ply + 1)),
    ensures
        ({
            let (s, v) = ref_s(c, st, p, depth, alpha, beta, ply, pv, cut, None);
            v == max2(alpha, mate_s(ply)) && s.nodes == st.nodes + 1
        }),
{
    lemma_ref(c, st, p, depth, alpha, beta, ply, pv, cut, None);
    let s1 = st.on_trail(st.trail.without_line(ply)).counted();
    lemma_ref_entered(c, s1, p, depth, alpha, beta, ply, pv, cut, None);
    lemma_drawn_by_keys(st.trail, s1.trail, hash_s(p), p.halfmove as int);
}

/// In the staged search too a side that is mated below the root, in a position
/// the table does not know, is scored by how far from the root that is.
pub proof fn law_staged_mated_node(
    c: Setup,
    st: State,
    p: Position,
    depth: int,
    alpha: int,
    beta: int,
    ply: int,
    pv: bool,
    cut: bool,
)
    requires
        0 < ply < 127,
        0 < depth <= 1000,
        p.in_check(),
        legal(p).len() == 0,
        !st.trail.drawn(hash_s(p), p.halfmove as int),
        probe_s(st.tt, hash_s(p)) is None,
        max2(alpha, mate_s(ply)) < min2(beta, -mate_s(ply + 1)),
    ensures
        ({
            let (s, v) = ref_s(c, st, p, depth, alpha, beta, ply, pv, cut, None);
            v == mate_s(ply) && s.nodes == st.nodes + 1
        }),
{
    lemma_ref(c, st, p, depth, alpha, beta, ply, pv, cut, None);
    let s1 = st.on_trail(st.trail.without_line(ply)).counted();
    lemma_ref_entered(c, s1, p, depth, alpha, beta, ply, pv, cut, None);
    lemma_drawn_by_keys(st.trail, s1.trail, hash_s(p), p.halfmove as int);
    let a = ref_gate_s(c, s1, p, alpha, beta, ply).1;
    let n0 = ref_node_of(s1, p, depth, beta, ply, pv, cut, None);
    let slots = reply_slots(s1.trail.played_moves, ply);
    reveal(ref_weighed);
    let (s2, n) = ref_weighed(c, s1, p, n0);
    lemma_ref_interior(c, s2, p, n, slots, a);
    let r = ref_start(s2, p, n, a);
    lemma_nothing_loaded(n, p, s2.refs, slots);
    lemma_ref_loop(c, p, n, r, slots);
    reveal(ref_finished);
}

/// A picker with no moves to load has none to give.
proof fn lemma_nothing_loaded(n: Node, p: Position, h: HistoriesView, slots: Slots)
    requires
        legal(p).len() == 0,
    ensures
        ({
            let o = loaded(new_order(table_move(n.entry), n.depth as int, false), p, legal(p));
            o.idx >= 0 && next_s(o, p, h, slots, n.ply as int).1 is None
        }),
{
    lemma_nothing_to_give(table_move(n.entry), n.depth as int, false, p, h, slots, n.ply as int);
}

/// The same of whatever order is loaded.
pub proof fn lemma_nothing_to_give(
    first: Option<Move>,
    depth: int,
    quiescence: bool,
    p: Position,
    h: HistoriesView,
    slots: Slots,
    ply: int,
)
    requires
        legal(p).len() == 0,
    ensures
        ({
            let o = loaded(new_order(first, depth, quiescence), p, legal(p));
            o.idx >= 0 && next_s(o, p, h, slots, ply).1 is None
        }),
{
    let o = loaded(new_order(first, depth, quiescence), p, legal(p));
    law_loaded_moves_await(first, depth, quiescence, p, legal(p));
    law_each_move_once(o, p, h, slots, ply);
    if let Some(x) = next_s(o, p, h, slots, ply).1 {
        assert(awaits(o, x));
        assert(legal(p).contains(x));
    }
}

/// Two passes in a row are never tried in the staged search either.
pub proof fn law_staged_no_two_passes(st: State, p: Position, n: Node, ply: int)
    requires
        n.ply == ply + 1,
        0 <= ply < 127,
        st.trail.wf(),
    ensures
        !ref_null_tries(st.on_trail(st.trail.with_null(ply, true)), p, n),
{
}

/// No move of a staged node that has no score in hand is passed over, and none
/// at the root.
pub proof fn law_staged_first_move_is_searched(
    p: Position,
    n: Node,
    alpha: int,
    mv: Move,
    score: int,
    count: int,
)
    ensures
        !ref_skips(p, n, -INF as int, alpha, mv, score, count),
        n.ply == 0 ==> forall|best: int| !#[trigger]
            ref_skips(p, n, best, alpha, mv, score, count),
{
    reveal(ref_skips);
}

/// A staged node is not left for quiescence by its own reduction at the root,
/// and loses at most two plies to it elsewhere.
pub proof fn law_staged_easing(n: Node)
    requires
        n.depth >= 1,
    ensures
        n.ply == 0 ==> ref_eased(n) == n,
        n.depth - 2 <= ref_eased(n).depth <= n.depth,
        0 <= ref_null_depth(n),
        n.sharp >= n.beta ==> ref_null_depth(n) <= max2(n.depth - 4, 0),
{
}

}
