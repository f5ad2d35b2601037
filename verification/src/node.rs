//! What a search node computes.
//!
//! The functions here are the search without its clock: from the tables, the
//! position and the window to the tables and the score. A node that is not cut
//! short computes exactly this.
use vstd::prelude::*;
use crate::board::hash_s;
use crate::histories::HistoriesView;
use crate::lore::{corrected_s, credited, with_killer, LoreView};
use crate::moves::Move;
use crate::movegen::{legal, legal_caps};
use crate::nnue::Weights;
use crate::num::{abs1, max2, min2};
use crate::params::{Features, Params};
use crate::position::{after, Position};
use crate::rank::{picked, ranked_s, victim_worth, RankedView};
use crate::score::{eval_s, from_tt, hist_bonus_s, mate_s, mated, to_tt, INF, MATE_IN_MAX, MAX_PLY};
use crate::see::see_ge_s;
use crate::trail::TrailView;
use crate::tt::{probe_s, store_eval_s, store_s, Bound, Table, TtEntry, TT_EVAL_NONE};

verus! {

/// What stays the same throughout a search.
pub struct Setup {
    pub params: Params,
    pub features: Features,
    /// Reductions by depth and by how many moves have been tried.
    pub lmr: Seq<i32>,
    pub net: Option<Weights>,
}

/// What a search changes.
#[verifier::ext_equal]
pub struct State {
    pub tt: Table,
    pub nodes: int,
    pub lore: LoreView,
    pub trail: TrailView,
    pub refs: HistoriesView,
    /// Nodes spent under each root move.
    pub effort: Seq<(Move, u64)>,
    /// What was thought of each root move.
    pub scores: Seq<(Move, i32)>,
}

impl State {
    pub open spec fn counted(self) -> State {
        State { nodes: self.nodes + 1, ..self }
    }

    pub open spec fn on_trail(self, trail: TrailView) -> State {
        State { trail, ..self }
    }

    pub open spec fn with_lore(self, lore: LoreView) -> State {
        State { lore, ..self }
    }

    pub open spec fn with_tt(self, tt: Table) -> State {
        State { tt, ..self }
    }
}

/// No evaluation, as the evaluation stack writes it.
pub const NO_EVAL: i32 = -32768;

/// What a drawn position is worth, seen from the side to move at `ply`: it
/// costs the root the contempt wherever it is found.
pub open spec fn draw_s(c: Setup, ply: int) -> int {
    if ply % 2 == 1 { c.params.contempt as int } else { -c.params.contempt }
}

/// A stored score answers this window.
pub open spec fn answers(e: TtEntry, s: int, alpha: int, beta: int) -> bool {
    match e.bound {
        Bound::Exact => true,
        Bound::Lower => s >= beta,
        Bound::Upper => s <= alpha,
        Bound::NoBound => false,
    }
}

/// A stored score is a better estimate than this evaluation.
pub open spec fn betters(e: TtEntry, s: int, eval: int) -> bool {
    match e.bound {
        Bound::Exact => true,
        Bound::Lower => s > eval,
        Bound::Upper => s < eval,
        Bound::NoBound => false,
    }
}

/// The evaluation, improved by what the table already knows.
pub open spec fn sharpened(entry: Option<TtEntry>, eval: int, ply: int) -> int {
    match entry {
        Some(e) if e.bounded() && betters(e, from_tt(e.score as int, ply), eval) => from_tt(
            e.score as int,
            ply,
        ),
        _ => eval,
    }
}

pub open spec fn floor_or_exact(b: Bound) -> bool {
    b == Bound::Lower || b == Bound::Exact
}

pub open spec fn table_move(entry: Option<TtEntry>) -> Option<Move> {
    match entry {
        Some(e) => e.best,
        None => None,
    }
}

/// Drawn, too deep, or beyond any mate still possible: the node is decided
/// before it begins. Otherwise the lower end of its window.
pub open spec fn gate_s(
    c: Setup,
    st: State,
    p: Position,
    alpha: int,
    beta: int,
    ply: int,
) -> (Option<int>, int) {
    let a = max2(alpha, mate_s(ply));
    if ply == 0 {
        (None, alpha)
    } else if st.trail.drawn(hash_s(p), p.halfmove as int) {
        (Some(draw_s(c, ply)), alpha)
    } else if ply >= MAX_PLY - 1 {
        (Some(eval_s(c.net, p, c.features.rule50_fade)), alpha)
    } else if a >= min2(beta, -mate_s(ply + 1)) {
        (Some(a), a)
    } else {
        (None, a)
    }
}

/// One of ours on the origin square, and nothing of ours on the destination.
pub open spec fn plausible(p: Position, m: Move) -> bool {
    &&& p.piece_s(m.from as int) matches Some((pt, c)) && c == p.side
    &&& p.piece_s(m.to as int) matches Some((pt, c)) ==> c != p.side
}

/// The tables after a stored score has answered: the stored move is credited on
/// the way out.
pub open spec fn cut_credit(
    l: LoreView,
    t: TrailView,
    p: Position,
    m: Option<Move>,
    depth: int,
    ply: int,
) -> LoreView {
    match m {
        Some(m) if plausible(p, m) && m.quiet() => with_killer(
            credited(l, p, m, t.slots(ply), hist_bonus_s(depth)),
            ply,
            m,
        ),
        _ => l,
    }
}

/// The stored score that ends the node, if one does.
pub open spec fn table_cut_s(
    p: Position,
    entry: Option<TtEntry>,
    depth: int,
    alpha: int,
    beta: int,
    ply: int,
    pv: bool,
    excl: Option<Move>,
) -> Option<int> {
    match entry {
        Some(e) if excl is None && !pv && e.depth >= depth && e.bounded() && answers(
            e,
            from_tt(e.score as int, ply),
            alpha,
            beta,
        ) && p.halfmove < 90 => Some(from_tt(e.score as int, ply)),
        _ => None,
    }
}

/// What a node knows before it looks at its moves.
#[derive(Clone, Copy)]
pub struct Node {
    pub depth: i32,
    pub beta: i32,
    pub ply: usize,
    pub pv_node: bool,
    pub cut_node: bool,
    /// A move this node pretends does not exist.
    pub excluded: Option<Move>,
    pub in_check: bool,
    pub entry: Option<TtEntry>,
    /// The position once earned a full window.
    pub tt_pv: bool,
    /// The network's evaluation, as it goes into the table.
    pub raw: i32,
    /// The evaluation, corrected.
    pub eval: i32,
    /// The evaluation, improved by what the table knows.
    pub sharp: i32,
    pub improving: bool,
}

/// The evaluation already in the table, if there is one.
pub open spec fn stored_eval(entry: Option<TtEntry>) -> Option<int> {
    match entry {
        Some(e) if e.static_eval != TT_EVAL_NONE => Some(e.static_eval as int),
        _ => None,
    }
}

/// The evaluation of a position that is not in check, and the table after it.
pub open spec fn raw_s(
    net: Option<Weights>,
    fade: bool,
    tt: Table,
    p: Position,
    entry: Option<TtEntry>,
) -> (Table, int) {
    match stored_eval(entry) {
        Some(v) => (tt, v),
        None => {
            let v = eval_s(net, p, fade);
            (store_eval_s(tt, hash_s(p), v as i16), v)
        },
    }
}

/// Is the side to move better off than it was two plies ago? Four where two are
/// of no use, and no claim where neither is.
pub open spec fn improving_s(t: TrailView, ply: int, eval: int) -> bool {
    if ply >= 2 && t.eval_stack[ply - 2] != NO_EVAL {
        eval > t.eval_stack[ply - 2]
    } else if ply >= 4 && t.eval_stack[ply - 4] != NO_EVAL {
        eval > t.eval_stack[ply - 4]
    } else {
        false
    }
}

/// A node's evaluations, and the state with them written down.
#[verifier::opaque]
pub open spec fn weighed(c: Setup, st: State, p: Position, n: Node) -> (State, Node) {
    let ply = n.ply as int;
    if n.in_check {
        (
            st.on_trail(st.trail.with_eval(ply, NO_EVAL as int)),
            Node { raw: NO_EVAL, eval: NO_EVAL, sharp: NO_EVAL, improving: false, ..n },
        )
    } else {
        let (tt, raw) = raw_s(c.net, c.features.rule50_fade, st.tt, p, n.entry);
        let eval = if c.features.corr_hist {
            corrected_s(st.lore, p, raw, st.trail.last_played(ply), st.trail.delta())
        } else {
            raw
        };
        let trail = st.trail.with_eval(ply, eval);
        (
            State { tt, trail, ..st },
            Node {
                raw: raw as i32,
                eval: eval as i32,
                sharp: sharpened(n.entry, eval, ply) as i32,
                improving: improving_s(trail, ply, eval),
                ..n
            },
        )
    }
}

// ---------------------------------------------------------------------------
// Quiescence
// ---------------------------------------------------------------------------
/// What a capture wins at once, in the network's units.
pub open spec fn gain_s(p: Position, mv: Move) -> int {
    2 * victim_worth(p, mv) + match mv.promotion {
        Some(pt) => 2 * pt.worth() - 200,
        None => 0,
    }
}

/// A quiescence node part way through its moves.
#[verifier::ext_equal]
pub struct QRun {
    pub st: State,
    pub list: RankedView,
    pub alpha: int,
    pub best: int,
    pub best_move: Option<Move>,
    pub done: bool,
}

/// A quiescence move that is not worth playing: it loses material, or what it
/// wins is nowhere near alpha.
pub open spec fn q_skips(
    c: Setup,
    p: Position,
    in_check: bool,
    eval: int,
    best: int,
    alpha: int,
    mv: Move,
) -> bool {
    !in_check && (!see_ge_s(p, mv, 0) || (c.features.qs_futility && abs1(best) < MATE_IN_MAX && eval
        != NO_EVAL && eval + gain_s(p, mv) + 200 <= alpha))
}

/// What a score does to a quiescence node.
pub open spec fn q_absorbed(r: QRun, mv: Move, score: int, beta: int) -> QRun {
    if score > r.best {
        if score > r.alpha {
            QRun { best: score, alpha: score, best_move: Some(mv), done: score >= beta, ..r }
        } else {
            QRun { best: score, ..r }
        }
    } else {
        r
    }
}

pub open spec fn bound_s(best: int, alpha: int, beta: int) -> Bound {
    if best >= beta {
        Bound::Lower
    } else if best > alpha {
        Bound::Exact
    } else {
        Bound::Upper
    }
}

/// Where a quiescence node stands before its moves: the answer, or the window
/// and the evaluation.
pub enum Stand {
    Out(int),
    On { alpha: int, eval: int, best: int },
}

pub open spec fn q_stand(
    c: Setup,
    st: State,
    p: Position,
    alpha: int,
    beta: int,
    ply: int,
) -> Stand {
    let entry = probe_s(st.tt, hash_s(p));
    if ply >= MAX_PLY - 1 {
        Stand::Out(eval_s(c.net, p, c.features.rule50_fade))
    } else if st.trail.drawn(hash_s(p), p.halfmove as int) {
        Stand::Out(draw_s(c, ply))
    } else if entry matches Some(e) && e.bounded() && answers(
        e,
        from_tt(e.score as int, ply),
        alpha,
        beta,
    ) {
        Stand::Out(from_tt(entry->0.score as int, ply))
    } else if p.in_check() {
        if legal(p).len() == 0 {
            Stand::Out(mate_s(ply))
        } else {
            Stand::On { alpha, eval: NO_EVAL as int, best: -INF }
        }
    } else {
        let eval = match stored_eval(entry) {
            Some(v) => v,
            None => eval_s(c.net, p, c.features.rule50_fade),
        };
        let floor = sharpened(entry, eval, ply);
        if floor >= beta {
            Stand::Out(floor)
        } else {
            Stand::On { alpha: max2(alpha, floor), eval, best: floor }
        }
    }
}

/// The moves a quiescence node looks at: replies to a check, or captures.
pub open spec fn q_moves(p: Position) -> Seq<Move> {
    if p.in_check() { legal(p) } else { legal_caps(p) }
}

/// A quiescence node about to try its moves.
pub open spec fn q_start(c: Setup, st: State, p: Position, alpha: int, best: int, ply: int) -> QRun {
    QRun {
        st,
        list: ranked_s(
            st.lore,
            c.features.capture_hist,
            p,
            q_moves(p),
            table_move(probe_s(st.tt, hash_s(p))),
            ply,
            1,
            st.trail.slots(ply),
        ),
        alpha,
        best,
        best_move: None,
        done: false,
    }
}

/// The table once a quiescence node is done.
pub open spec fn q_stored(
    r: QRun,
    p: Position,
    alpha: int,
    beta: int,
    eval: int,
    ply: int,
) -> Table {
    store_s(
        r.st.tt,
        hash_s(p),
        0,
        to_tt(r.best, ply),
        bound_s(r.best, alpha, beta),
        r.best_move,
        false,
        if p.in_check() { TT_EVAL_NONE } else { eval as i16 },
    )
}

/// The quiescence search of a position.
#[verifier::opaque]
pub open spec fn quiesce_s(
    c: Setup,
    st: State,
    p: Position,
    alpha: int,
    beta: int,
    ply: int,
) -> (State, int)
    decreases 128 - ply, 2int, 0int,
    when 0 <= ply < 128
{
    let s0 = st.counted();
    match q_stand(c, s0, p, alpha, beta, ply) {
        Stand::Out(v) => (s0, v),
        Stand::On { alpha: a, eval, best } => {
            let r = q_loop_s(
                c,
                p,
                q_start(c, s0, p, a, best, ply),
                eval,
                beta,
                ply,
                0,
                q_moves(p).len() as int,
            );
            (r.st.with_tt(q_stored(r, p, alpha, beta, eval, ply)), r.best)
        },
    }
}

/// The moves of a quiescence node from `i` on.
#[verifier::opaque]
pub open spec fn q_loop_s(
    c: Setup,
    p: Position,
    r: QRun,
    eval: int,
    beta: int,
    ply: int,
    i: int,
    len: int,
) -> QRun
    decreases 128 - ply, 1int, len - i,
    when 0 <= ply < 127
{
    if i >= len || r.done {
        r
    } else {
        let list = picked(r.list, i);
        let mv = list.moves[i];
        let r1 = QRun { list, ..r };
        let r2 = if q_skips(c, p, p.in_check(), eval, r.best, r.alpha, mv) {
            r1
        } else {
            q_tried_s(c, p, r1, mv, beta, ply)
        };
        q_loop_s(c, p, r2, eval, beta, ply, i + 1, len)
    }
}

/// One quiescence move played and its score taken in.
#[verifier::opaque]
pub open spec fn q_tried_s(
    c: Setup,
    p: Position,
    r: QRun,
    mv: Move,
    beta: int,
    ply: int,
) -> QRun
    decreases 128 - ply, 0int, 0int,
    when 0 <= ply < 127
{
    let q = after(p, mv);
    let s0 = r.st.on_trail(r.st.trail.with_key(hash_s(q)));
    let (s1, v) = quiesce_s(c, s0, q, -beta, -r.alpha, ply + 1);
    q_absorbed(QRun { st: s1.on_trail(s1.trail.without_key()), ..r }, mv, -v, beta)
}

/// What a quiescence move comes to, one ply at a time.
pub proof fn lemma_q_tried(c: Setup, p: Position, r: QRun, mv: Move, beta: int, ply: int)
    requires
        0 <= ply < 127,
    ensures
        q_tried_s(c, p, r, mv, beta, ply) == ({
            let q = after(p, mv);
            let s0 = r.st.on_trail(r.st.trail.with_key(hash_s(q)));
            let (s1, v) = quiesce_s(c, s0, q, -beta, -r.alpha, ply + 1);
            q_absorbed(QRun { st: s1.on_trail(s1.trail.without_key()), ..r }, mv, -v, beta)
        }),
{
    reveal(q_tried_s);
    reveal(quiesce_s);
}

/// The move loop of a quiescence node, one move at a time.
pub proof fn lemma_q_loop(
    c: Setup,
    p: Position,
    r: QRun,
    eval: int,
    beta: int,
    ply: int,
    i: int,
    len: int,
)
    requires
        0 <= ply < 127,
    ensures
        i >= len || r.done ==> q_loop_s(c, p, r, eval, beta, ply, i, len) == r,
        i < len && !r.done ==> q_loop_s(c, p, r, eval, beta, ply, i, len) == ({
            let list = picked(r.list, i);
            let mv = list.moves[i];
            let r1 = QRun { list, ..r };
            let r2 = if q_skips(c, p, p.in_check(), eval, r.best, r.alpha, mv) {
                r1
            } else {
                q_tried_s(c, p, r1, mv, beta, ply)
            };
            q_loop_s(c, p, r2, eval, beta, ply, i + 1, len)
        }),
{
    reveal_with_fuel(q_loop_s, 2);
    reveal(q_tried_s);
}

/// The whole of a quiescence node.
pub proof fn lemma_quiesce(c: Setup, st: State, p: Position, alpha: int, beta: int, ply: int)
    requires
        0 <= ply < 128,
    ensures
        quiesce_s(c, st, p, alpha, beta, ply) == ({
            let s0 = st.counted();
            match q_stand(c, s0, p, alpha, beta, ply) {
                Stand::Out(v) => (s0, v),
                Stand::On { alpha: a, eval, best } => {
                    let r = q_loop_s(
                        c,
                        p,
                        q_start(c, s0, p, a, best, ply),
                        eval,
                        beta,
                        ply,
                        0,
                        q_moves(p).len() as int,
                    );
                    (r.st.with_tt(q_stored(r, p, alpha, beta, eval, ply)), r.best)
                },
            }
        }),
{
    reveal(quiesce_s);
    reveal(q_loop_s);
}

/// A quiescence node counts itself and whatever it looks at.
pub proof fn lemma_quiesce_counts(
    c: Setup,
    st: State,
    p: Position,
    alpha: int,
    beta: int,
    ply: int,
)
    requires
        0 <= ply < 128,
    ensures
        quiesce_s(c, st, p, alpha, beta, ply).0.nodes > st.nodes,
    decreases 128 - ply, 2int, 0int,
{
    lemma_quiesce(c, st, p, alpha, beta, ply);
    let s0 = st.counted();
    if let Stand::On { alpha: a, eval, best } = q_stand(c, s0, p, alpha, beta, ply) {
        lemma_q_loop_counts(
            c,
            p,
            q_start(c, s0, p, a, best, ply),
            eval,
            beta,
            ply,
            0,
            q_moves(p).len() as int,
        );
    }
}

/// Its move loop takes no node back, and counts those of the move at hand.
pub proof fn lemma_q_loop_counts(
    c: Setup,
    p: Position,
    r: QRun,
    eval: int,
    beta: int,
    ply: int,
    i: int,
    len: int,
)
    requires
        0 <= ply < 127,
    ensures
        ({
            let end = q_loop_s(c, p, r, eval, beta, ply, i, len).st.nodes;
            let list = picked(r.list, i);
            let mv = list.moves[i];
            let r1 = QRun { list, ..r };
            &&& r.st.nodes <= end
            &&& i < len && !r.done && !q_skips(c, p, p.in_check(), eval, r.best, r.alpha, mv)
                ==> q_tried_s(c, p, r1, mv, beta, ply).st.nodes <= end
        }),
    decreases 128 - ply, 1int, len - i,
{
    lemma_q_loop(c, p, r, eval, beta, ply, i, len);
    if i < len && !r.done {
        let list = picked(r.list, i);
        let mv = list.moves[i];
        let r1 = QRun { list, ..r };
        if q_skips(c, p, p.in_check(), eval, r.best, r.alpha, mv) {
            lemma_q_loop_counts(c, p, r1, eval, beta, ply, i + 1, len);
        } else {
            lemma_q_tried_counts(c, p, r1, mv, beta, ply);
            lemma_q_loop_counts(
                c,
                p,
                q_tried_s(c, p, r1, mv, beta, ply),
                eval,
                beta,
                ply,
                i + 1,
                len,
            );
        }
    }
}

proof fn lemma_q_tried_counts(c: Setup, p: Position, r: QRun, mv: Move, beta: int, ply: int)
    requires
        0 <= ply < 127,
    ensures
        q_tried_s(c, p, r, mv, beta, ply).st.nodes > r.st.nodes,
    decreases 128 - ply, 0int, 0int,
{
    lemma_q_tried(c, p, r, mv, beta, ply);
    let q = after(p, mv);
    let s0 = r.st.on_trail(r.st.trail.with_key(hash_s(q)));
    lemma_quiesce_counts(c, s0, q, -beta, -r.alpha, ply + 1);
}

// ---------------------------------------------------------------------------
// Laws
// ---------------------------------------------------------------------------
/// A ply spent in check has no evaluation, so nothing is claimed to be improving
/// against it.
pub proof fn law_no_improvement_over_nothing(t: TrailView, ply: int, eval: int)
    requires
        ply >= 2 ==> t.eval_stack[ply - 2] == NO_EVAL,
        ply >= 4 ==> t.eval_stack[ply - 4] == NO_EVAL,
    ensures
        !improving_s(t, ply, eval),
{
}

/// Past its gate, a node's window still has room in it, and its lower end is no
/// worse than being mated here.
pub proof fn law_window_past_the_gate(
    c: Setup,
    st: State,
    p: Position,
    alpha: int,
    beta: int,
    ply: int,
)
    requires
        alpha < beta,
        0 <= ply,
    ensures
        ({
            let (out, a) = gate_s(c, st, p, alpha, beta, ply);
            out is None ==> {
                &&& alpha <= a < beta
                &&& ply > 0 ==> mate_s(ply) <= a && a < -mate_s(ply + 1)
            }
        }),
{
}

/// An improved evaluation is what the table's bound allows: never below a lower
/// bound, never above an upper one.
pub proof fn law_sharpened_respects_bounds(e: TtEntry, eval: int, ply: int)
    ensures
        ({
            let s = from_tt(e.score as int, ply);
            let v = sharpened(Some(e), eval, ply);
            &&& e.bound == Bound::Exact ==> v == s
            &&& e.bound == Bound::Lower ==> v == max2(eval, s)
            &&& e.bound == Bound::Upper ==> v == min2(eval, s)
            &&& e.bound == Bound::NoBound ==> v == eval
        }),
{
}

/// What the table keeps of an evaluation is the raw number: the correction
/// applied on reading it is not stored.
pub proof fn law_correction_not_stored(c: Setup, st: State, p: Position, n: Node)
    requires
        !n.in_check,
    ensures
        ({
            let (s, m) = weighed(c, st, p, n);
            &&& s.tt == raw_s(c.net, c.features.rule50_fade, st.tt, p, n.entry).0
            &&& stored_eval(n.entry) is None ==> s.tt == store_eval_s(
                st.tt,
                hash_s(p),
                eval_s(c.net, p, c.features.rule50_fade) as i16,
            )
            &&& stored_eval(n.entry) is Some ==> s.tt == st.tt
        }),
{
    reveal(weighed);
}

}
