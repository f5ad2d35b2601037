//! What holds of the table's answers and of the quiescence search.
use vstd::prelude::*;
use crate::board::hash_s;
use crate::lore::Slots;
use crate::movegen::{legal, legal_caps};
use crate::moves::Move;
use crate::node::{
    answers, bound_s, lemma_q_loop, lemma_q_tried, lemma_quiesce, q_loop_s, q_moves, q_skips,
    q_start, quiesce_s, sharpened, table_cut_s, Node, QRun, Setup, State, NO_EVAL,
};
use crate::order::{loaded, lemma_next_uses, fuel, next_s};
use crate::position::{after, Position};
use crate::rank::picked;
use crate::reftree::{
    lemma_ref_q_child, lemma_ref_q_loop, lemma_ref_quiesce, ref_bound, ref_q_loop_s, ref_q_start,
    ref_quiesce_s, ref_table_cut, RefQRun,
};
use crate::score::{eval_s, from_tt, INF, MATE};
use crate::see::{see_ge_s, see_s};
use crate::tt::{probe_s, Bound, TtEntry};

verus! {

// ---------------------------------------------------------------------------
// What the table says
// ---------------------------------------------------------------------------
/// What a score `s` filed under this bound says of the true value `v`: that it is
/// no less, no more, just this, or nothing.
pub open spec fn claims(b: Bound, s: int, v: int) -> bool {
    match b {
        Bound::Lower => v >= s,
        Bound::Upper => v <= s,
        Bound::Exact => v == s,
        Bound::NoBound => true,
    }
}

/// Giving back `s` for the true value `v` misleads nobody who asks with this
/// window: both lie below it, both lie above it, or they are the same.
pub open spec fn stands_for(s: int, v: int, alpha: int, beta: int) -> bool {
    &&& s <= alpha ==> v <= alpha
    &&& s >= beta ==> v >= beta
    &&& alpha < s < beta ==> v == s
}

/// A stored score answers a window exactly where it stands for every value that
/// its bound leaves possible.
pub proof fn law_answers_exactly_what_is_known(e: TtEntry, s: int, alpha: int, beta: int)
    requires
        alpha < beta,
    ensures
        answers(e, s, alpha, beta) <==> forall|v: int| #[trigger]
            claims(e.bound, s, v) ==> stands_for(s, v, alpha, beta),
{
    let known = forall|v: int| #[trigger]
        claims(e.bound, s, v) ==> stands_for(s, v, alpha, beta);
    if answers(e, s, alpha, beta) {
        assert forall|v: int| #[trigger] claims(e.bound, s, v) implies stands_for(
            s,
            v,
            alpha,
            beta,
        ) by {}
    } else {
        let w = if s <= alpha {
            alpha + 1
        } else if s >= beta {
            beta - 1
        } else if e.bound == Bound::Upper {
            s - 1
        } else {
            s + 1
        };
        assert(claims(e.bound, s, w));
        assert(!stands_for(s, w, alpha, beta));
        assert(!known);
    }
}

/// A result is filed under the bound that claims of the true value just what the
/// window it was found with allows.
pub proof fn law_result_is_filed_as_it_is(best: int, alpha: int, beta: int, v: int)
    requires
        alpha < beta,
    ensures
        claims(bound_s(best, alpha, beta), best, v) <==> {
            &&& best >= beta ==> v >= best
            &&& best <= alpha ==> v <= best
            &&& alpha < best < beta ==> v == best
        },
{
}

/// The staged search files its results the same way, wherever its window is open
/// or has no room in it.
pub proof fn law_staged_result_is_filed_as_it_is(n: Node, best: int, alpha: int, v: int)
    requires
        alpha < n.beta,
        n.pv_node || n.beta == alpha + 1,
    ensures
        claims(ref_bound(n, best, alpha), best, v) <==> {
            &&& best >= n.beta ==> v >= best
            &&& best <= alpha ==> v <= best
            &&& alpha < best < n.beta ==> v == best
        },
{
}

/// An evaluation that a stored bound allows is kept, and one that it rules out
/// gives way to the stored score.
pub proof fn law_evaluation_bends_to_the_bound(e: TtEntry, eval: int, ply: int)
    ensures
        ({
            let s = from_tt(e.score as int, ply);
            let x = sharpened(Some(e), eval, ply);
            &&& claims(e.bound, s, eval) ==> x == eval
            &&& !claims(e.bound, s, eval) ==> x == s
        }),
        sharpened(None, eval, ply) == eval,
{
}

/// The table ends a node only off the principal variation, with no move excluded,
/// away from the fifty move wall, with a result at least as deep as was asked for
/// and one that settles the window; and then it does, in both searches.
pub proof fn law_table_ends_a_node(
    p: Position,
    e: TtEntry,
    depth: int,
    alpha: int,
    beta: int,
    ply: int,
    pv: bool,
    excl: Option<Move>,
)
    requires
        alpha < beta,
    ensures
        ({
            let s = from_tt(e.score as int, ply);
            let settles = forall|v: int| #[trigger]
                claims(e.bound, s, v) ==> stands_for(s, v, alpha, beta);
            let cut = table_cut_s(p, Some(e), depth, alpha, beta, ply, pv, excl);
            let staged = ref_table_cut(p, Some(e), depth, alpha, beta, ply, pv);
            &&& cut is Some <==> !pv && excl is None && p.halfmove < 90 && e.depth >= depth
                && settles
            &&& staged is Some <==> !pv && p.halfmove < 90 && e.depth >= depth && settles
            &&& cut is Some ==> cut == Some(s)
            &&& staged is Some ==> staged == Some(s)
        }),
        table_cut_s(p, None, depth, alpha, beta, ply, pv, excl) is None,
        ref_table_cut(p, None, depth, alpha, beta, ply, pv) is None,
{
    law_answers_exactly_what_is_known(e, from_tt(e.score as int, ply), alpha, beta);
}

// ---------------------------------------------------------------------------
// Quiescence
// ---------------------------------------------------------------------------
/// Nothing decides this quiescence node beforehand: it is not drawn, not at the
/// end of the board's patience, and the table does not know it.
pub open spec fn unsettled(st: State, p: Position, ply: int) -> bool {
    &&& 0 <= ply < 127
    &&& !st.trail.drawn(hash_s(p), p.halfmove as int)
    &&& probe_s(st.tt, hash_s(p)) is None
}

/// Out of check the side to move is not obliged to capture: it never comes out
/// below the evaluation, is done at once where that reaches beta, and comes out
/// at it where there is nothing to capture.
pub proof fn law_standing_pat(
    c: Setup,
    st: State,
    p: Position,
    alpha: int,
    beta: int,
    ply: int,
)
    requires
        unsettled(st, p, ply),
        !p.in_check(),
    ensures
        ({
            let eval = eval_s(c.net, p, c.features.rule50_fade);
            let (s, v) = quiesce_s(c, st, p, alpha, beta, ply);
            &&& v >= eval
            &&& eval >= beta ==> v == eval && s.nodes == st.nodes + 1
            &&& legal_caps(p).len() == 0 ==> v == eval && s.nodes == st.nodes + 1
        }),
{
    lemma_quiesce(c, st, p, alpha, beta, ply);
    let s0 = st.counted();
    crate::tree::lemma_drawn_by_keys(st.trail, s0.trail, hash_s(p), p.halfmove as int);
    let eval = eval_s(c.net, p, c.features.rule50_fade);
    if eval < beta {
        let a = if alpha > eval { alpha } else { eval };
        let r = q_start(c, s0, p, a, eval, ply);
        lemma_best_only_grows(c, p, r, eval, beta, ply, 0, q_moves(p).len() as int);
        lemma_q_loop(c, p, r, eval, beta, ply, 0, q_moves(p).len() as int);
    }
}

/// A side without a reply to a check is mated, so many plies from the root.
pub proof fn law_quiescence_sees_mate(
    c: Setup,
    st: State,
    p: Position,
    alpha: int,
    beta: int,
    ply: int,
)
    requires
        unsettled(st, p, ply),
        p.in_check(),
        legal(p).len() == 0,
    ensures
        quiesce_s(c, st, p, alpha, beta, ply).1 == -MATE + ply,
        quiesce_s(c, st, p, alpha, beta, ply).0.nodes == st.nodes + 1,
{
    lemma_quiesce(c, st, p, alpha, beta, ply);
    crate::tree::lemma_drawn_by_keys(
        st.trail,
        st.counted().trail,
        hash_s(p),
        p.halfmove as int,
    );
}

/// A drawn position costs the root the contempt, on whichever side's turn it is
/// found.
pub proof fn law_quiescence_sees_draws(
    c: Setup,
    st: State,
    p: Position,
    alpha: int,
    beta: int,
    ply: int,
)
    requires
        0 <= ply < 127,
        st.trail.drawn(hash_s(p), p.halfmove as int),
    ensures
        ply % 2 == 0 ==> quiesce_s(c, st, p, alpha, beta, ply).1 == -c.params.contempt,
        ply % 2 == 1 ==> quiesce_s(c, st, p, alpha, beta, ply).1 == c.params.contempt,
        ref_quiesce_s(c, st, p, alpha, beta, ply).1 == 0,
{
    lemma_quiesce(c, st, p, alpha, beta, ply);
    lemma_ref_quiesce(c, st, p, alpha, beta, ply);
    crate::tree::lemma_drawn_by_keys(
        st.trail,
        st.counted().trail,
        hash_s(p),
        p.halfmove as int,
    );
}

/// Out of check a capture is passed over where it loses material. Where futility
/// is switched on it is passed over besides only where the evaluation, all that
/// it takes and two hundred more do not come above alpha. In check nothing is.
pub proof fn law_what_quiescence_passes_over(
    c: Setup,
    p: Position,
    in_check: bool,
    eval: int,
    best: int,
    alpha: int,
    mv: Move,
)
    ensures
        in_check ==> !q_skips(c, p, in_check, eval, best, alpha, mv),
        !in_check && see_s(p, mv) < 0 ==> q_skips(c, p, in_check, eval, best, alpha, mv),
        !in_check && see_s(p, mv) >= 0 && !c.features.qs_futility ==> !q_skips(
            c,
            p,
            in_check,
            eval,
            best,
            alpha,
            mv,
        ),
        !in_check && see_s(p, mv) >= 0 && q_skips(c, p, in_check, eval, best, alpha, mv) ==> eval
            + crate::node::gain_s(p, mv) + 200 <= alpha && -(MATE - 128) < best < MATE - 128,
{
    reveal(see_ge_s);
}

proof fn lemma_best_only_grows(
    c: Setup,
    p: Position,
    r: QRun,
    eval: int,
    beta: int,
    ply: int,
    i: int,
    len: int,
)
    requires
        0 <= ply < 127,
    ensures
        q_loop_s(c, p, r, eval, beta, ply, i, len).best >= r.best,
    decreases len - i,
{
    lemma_q_loop(c, p, r, eval, beta, ply, i, len);
    if i < len && !r.done {
        let list = picked(r.list, i);
        let mv = list.moves[i];
        let r1 = QRun { list, ..r };
        if q_skips(c, p, p.in_check(), eval, r.best, r.alpha, mv) {
            lemma_best_only_grows(c, p, r1, eval, beta, ply, i + 1, len);
        } else {
            lemma_q_tried(c, p, r1, mv, beta, ply);
            lemma_best_only_grows(
                c,
                p,
                crate::node::q_tried_s(c, p, r1, mv, beta, ply),
                eval,
                beta,
                ply,
                i + 1,
                len,
            );
        }
    }
}

/// What the other side makes of a capture, with the window of the moment turned
/// round.
pub open spec fn reply(c: Setup, p: Position, r: QRun, mv: Move, beta: int, ply: int) -> int {
    let q = after(p, mv);
    quiesce_s(
        c,
        r.st.on_trail(r.st.trail.with_key(hash_s(q))),
        q,
        -beta,
        -r.alpha,
        ply + 1,
    ).1
}

/// A quiescence node with its first `n` moves behind it.
pub open spec fn q_past(
    c: Setup,
    p: Position,
    r: QRun,
    eval: int,
    beta: int,
    ply: int,
    n: int,
) -> QRun
    decreases n,
{
    if n <= 0 {
        r
    } else {
        let before = q_past(c, p, r, eval, beta, ply, n - 1);
        if before.done {
            before
        } else {
            q_loop_s(c, p, before, eval, beta, ply, n - 1, n)
        }
    }
}

proof fn lemma_q_past(
    c: Setup,
    p: Position,
    r: QRun,
    eval: int,
    beta: int,
    ply: int,
    n: int,
    len: int,
)
    requires
        0 <= ply < 127,
        0 <= n <= len,
    ensures
        q_loop_s(c, p, r, eval, beta, ply, 0, len) == q_loop_s(
            c,
            p,
            q_past(c, p, r, eval, beta, ply, n),
            eval,
            beta,
            ply,
            n,
            len,
        ),
    decreases n,
{
    if n > 0 {
        lemma_q_past(c, p, r, eval, beta, ply, n - 1, len);
        let b = q_past(c, p, r, eval, beta, ply, n - 1);
        lemma_q_loop(c, p, b, eval, beta, ply, n - 1, len);
        lemma_q_loop(c, p, b, eval, beta, ply, n - 1, n);
        if b.done {
            lemma_q_loop(c, p, b, eval, beta, ply, n, len);
        } else {
            let list = picked(b.list, n - 1);
            let mv = list.moves[n - 1];
            let r1 = QRun { list, ..b };
            let r2 = if q_skips(c, p, p.in_check(), eval, b.best, b.alpha, mv) {
                r1
            } else {
                crate::node::q_tried_s(c, p, r1, mv, beta, ply)
            };
            lemma_q_loop(c, p, r2, eval, beta, ply, n, n);
        }
    }
}

/// Every capture that does not lose material, and every reply to a check, has its
/// say: whenever its turn comes before the node is over, the node comes out no
/// worse than what it leads to. A capture that loses material is never played.
pub proof fn law_every_sound_capture_counts(
    c: Setup,
    p: Position,
    r: QRun,
    eval: int,
    beta: int,
    ply: int,
    j: int,
    len: int,
)
    requires
        0 <= ply < 127,
        0 <= j < len,
        !c.features.qs_futility,
        !q_past(c, p, r, eval, beta, ply, j).done,
    ensures
        ({
            let now = q_past(c, p, r, eval, beta, ply, j);
            let mv = picked(now.list, j).moves[j];
            let end = q_loop_s(c, p, r, eval, beta, ply, 0, len);
            let played = p.in_check() || see_s(p, mv) >= 0;
            &&& end.best >= now.best
            &&& played ==> end.best >= -reply(c, p, now, mv, beta, ply)
            &&& !played ==> q_past(c, p, r, eval, beta, ply, j + 1).st == now.st
        }),
{
    reveal(see_ge_s);
    lemma_q_past(c, p, r, eval, beta, ply, j, len);
    let b = q_past(c, p, r, eval, beta, ply, j);
    lemma_q_loop(c, p, b, eval, beta, ply, j, len);
    lemma_q_loop(c, p, b, eval, beta, ply, j, j + 1);
    lemma_best_only_grows(c, p, b, eval, beta, ply, j, len);
    let list = picked(b.list, j);
    let mv = list.moves[j];
    let r1 = QRun { list, ..b };
    if q_skips(c, p, p.in_check(), eval, b.best, b.alpha, mv) {
        lemma_q_loop(c, p, r1, eval, beta, ply, j + 1, j + 1);
    } else {
        lemma_q_tried(c, p, r1, mv, beta, ply);
        let r2 = crate::node::q_tried_s(c, p, r1, mv, beta, ply);
        lemma_best_only_grows(c, p, r2, eval, beta, ply, j + 1, len);
    }
}

/// The score of a quiescence node is earned: it is where the node stood, or what
/// one of its moves leads to.
pub proof fn law_quiescence_score_is_earned(
    c: Setup,
    p: Position,
    r: QRun,
    eval: int,
    beta: int,
    ply: int,
    n: int,
)
    requires
        0 <= ply < 127,
        0 <= n,
    ensures
        ({
            let end = q_past(c, p, r, eval, beta, ply, n);
            end.best == r.best || exists|j: int|
                0 <= j < n && end.best == -reply(
                    c,
                    p,
                    #[trigger] q_past(c, p, r, eval, beta, ply, j),
                    picked(q_past(c, p, r, eval, beta, ply, j).list, j).moves[j],
                    beta,
                    ply,
                )
        }),
    decreases n,
{
    if n > 0 {
        law_quiescence_score_is_earned(c, p, r, eval, beta, ply, n - 1);
        let b = q_past(c, p, r, eval, beta, ply, n - 1);
        if !b.done {
            lemma_q_loop(c, p, b, eval, beta, ply, n - 1, n);
            let list = picked(b.list, n - 1);
            let mv = list.moves[n - 1];
            let r1 = QRun { list, ..b };
            if q_skips(c, p, p.in_check(), eval, b.best, b.alpha, mv) {
                lemma_q_loop(c, p, r1, eval, beta, ply, n, n);
            } else {
                lemma_q_tried(c, p, r1, mv, beta, ply);
                let r2 = crate::node::q_tried_s(c, p, r1, mv, beta, ply);
                lemma_q_loop(c, p, r2, eval, beta, ply, n, n);
            }
        }
    }
}

/// A quiescence node that nothing settles beforehand is its moves and no others:
/// the captures out of check, every reply in it, starting from the evaluation or
/// from nothing, with the window raised to where it stands.
pub proof fn law_quiescence_tries_its_moves(
    c: Setup,
    st: State,
    p: Position,
    alpha: int,
    beta: int,
    ply: int,
)
    requires
        unsettled(st, p, ply),
        legal(p).len() > 0,
        p.in_check() || eval_s(c.net, p, c.features.rule50_fade) < beta,
    ensures
        ({
            let eval = eval_s(c.net, p, c.features.rule50_fade);
            let s0 = st.counted();
            let v = quiesce_s(c, st, p, alpha, beta, ply).1;
            &&& p.in_check() ==> v == q_past(
                c,
                p,
                q_start(c, s0, p, alpha, -INF as int, ply),
                NO_EVAL as int,
                beta,
                ply,
                legal(p).len() as int,
            ).best
            &&& !p.in_check() ==> v == q_past(
                c,
                p,
                q_start(c, s0, p, if alpha > eval { alpha } else { eval }, eval, ply),
                eval,
                beta,
                ply,
                legal_caps(p).len() as int,
            ).best
        }),
{
    lemma_quiesce(c, st, p, alpha, beta, ply);
    let s0 = st.counted();
    crate::tree::lemma_drawn_by_keys(st.trail, s0.trail, hash_s(p), p.halfmove as int);
    let eval = eval_s(c.net, p, c.features.rule50_fade);
    let (a, e, b) = if p.in_check() {
        (alpha, NO_EVAL as int, -INF as int)
    } else {
        (if alpha > eval { alpha } else { eval }, eval, eval)
    };
    let r = q_start(c, s0, p, a, b, ply);
    let len = q_moves(p).len() as int;
    lemma_q_past(c, p, r, e, beta, ply, len, len);
    lemma_q_loop(c, p, q_past(c, p, r, e, beta, ply, len), e, beta, ply, len, len);
}

// ---------------------------------------------------------------------------
// Staged quiescence
// ---------------------------------------------------------------------------
/// The staged quiescence too stands pat, sees a mate and is done where its window
/// is beyond any mate still possible.
pub proof fn law_staged_standing_pat(
    c: Setup,
    st: State,
    p: Position,
    alpha: int,
    beta: int,
    ply: int,
)
    requires
        unsettled(st, p, ply),
    ensures
        ({
            let eval = eval_s(c.net, p, false);
            let (s, v) = ref_quiesce_s(c, st, p, alpha, beta, ply);
            let low = if alpha > -MATE + ply { alpha } else { -MATE + ply };
            let high = if beta < MATE - ply - 1 { beta } else { MATE - ply - 1 };
            &&& low >= high ==> v == low && s.nodes == st.nodes + 1
            &&& low < high && !p.in_check() ==> v >= eval
            &&& low < high && !p.in_check() && eval >= beta ==> v == eval && s.nodes == st.nodes
                + 1
            &&& low < high && p.in_check() && legal(p).len() == 0 ==> v == -MATE + ply
        }),
{
    lemma_ref_quiesce(c, st, p, alpha, beta, ply);
    let s0 = st.counted();
    crate::tree::lemma_drawn_by_keys(st.trail, s0.trail, hash_s(p), p.halfmove as int);
    let eval = eval_s(c.net, p, false);
    let low = if alpha > -MATE + ply { alpha } else { -MATE + ply };
    let high = if beta < MATE - ply - 1 { beta } else { MATE - ply - 1 };
    let slots = crate::histories::reply_slots(s0.trail.played_moves, ply);
    if low < high {
        reveal(loaded);
        if p.in_check() {
            let r = ref_q_start(s0, p, low, -INF as int);
            if legal(p).len() == 0 {
                crate::reftree::lemma_nothing_to_give(None, 0, true, p, s0.refs, slots, ply);
                lemma_ref_q_loop(c, p, r, slots, beta, ply);
            }
        } else if eval < beta {
            let r = ref_q_start(s0, p, if low > eval { low } else { eval }, eval);
            lemma_staged_best_only_grows(c, p, r, slots, beta, ply);
        }
    }
}

proof fn lemma_staged_best_only_grows(
    c: Setup,
    p: Position,
    r: RefQRun,
    slots: Slots,
    beta: int,
    ply: int,
)
    requires
        0 <= ply < 127,
        r.order.idx >= 0,
    ensures
        ref_q_loop_s(c, p, r, slots, beta, ply).best >= r.best,
    decreases fuel(r.order),
{
    lemma_ref_q_loop(c, p, r, slots, beta, ply);
    lemma_next_uses(r.order, p, r.st.refs, slots, ply);
    if !r.done {
        let (order, given) = next_s(r.order, p, r.st.refs, slots, ply);
        if let Some(mv) = given {
            let r1 = RefQRun { order, count: r.count + 1, ..r };
            if !p.in_check() && !see_ge_s(p, mv, 0) {
                lemma_staged_best_only_grows(c, p, r1, slots, beta, ply);
            } else {
                let (st, score) = crate::reftree::ref_q_child_s(c, p, r.st, mv, r.alpha, beta, ply);
                let r2 = crate::reftree::ref_q_absorbed(RefQRun { st, ..r1 }, mv, score, beta);
                lemma_staged_best_only_grows(c, p, r2, slots, beta, ply);
            }
        }
    }
}

/// Of the moves the picker hands to the staged quiescence, every reply to a check
/// and every capture that does not lose material has its say, and no other is
/// played.
pub proof fn law_staged_sound_capture_counts(
    c: Setup,
    p: Position,
    r: RefQRun,
    slots: Slots,
    beta: int,
    ply: int,
    mv: Move,
)
    requires
        0 <= ply < 127,
        r.order.idx >= 0,
        !r.done,
        next_s(r.order, p, r.st.refs, slots, ply).1 == Some(mv),
    ensures
        ({
            let q = after(p, mv);
            let end = ref_q_loop_s(c, p, r, slots, beta, ply);
            let there = ref_quiesce_s(
                c,
                r.st.on_trail(r.st.trail.with_move(ply, mv).with_key(hash_s(q))),
                q,
                -beta,
                -r.alpha,
                ply + 1,
            ).1;
            let skipped = RefQRun {
                order: next_s(r.order, p, r.st.refs, slots, ply).0,
                count: r.count + 1,
                ..r
            };
            &&& end.best >= r.best
            &&& p.in_check() || see_s(p, mv) >= 0 ==> end.best >= -there
            &&& !p.in_check() && see_s(p, mv) < 0 ==> end == ref_q_loop_s(
                c,
                p,
                skipped,
                slots,
                beta,
                ply,
            )
        }),
{
    reveal(see_ge_s);
    lemma_ref_q_loop(c, p, r, slots, beta, ply);
    lemma_staged_best_only_grows(c, p, r, slots, beta, ply);
    lemma_next_uses(r.order, p, r.st.refs, slots, ply);
    lemma_ref_q_child(c, p, r.st, mv, r.alpha, beta, ply);
    if p.in_check() || see_s(p, mv) >= 0 {
        let order = next_s(r.order, p, r.st.refs, slots, ply).0;
        let r1 = RefQRun { order, count: r.count + 1, ..r };
        let (st, score) = crate::reftree::ref_q_child_s(c, p, r.st, mv, r.alpha, beta, ply);
        let r2 = crate::reftree::ref_q_absorbed(RefQRun { st, ..r1 }, mv, score, beta);
        lemma_staged_best_only_grows(c, p, r2, slots, beta, ply);
    }
}

}
