//! What holds of what things are worth to the search, and of what it learns on
//! the way.
use vstd::prelude::*;
use crate::board::hash_s;
use crate::clock::clock_says;
use crate::deepen::{no_room, room};
use crate::histories::replies_ok;
use crate::lore::{history_s, main_at, Slots};
use crate::lore_laws::law_credit_is_heard;
use crate::moves::{Move, MoveFlag};
use crate::node::{draw_s, gain_s, q_absorbed, q_skips, Node, QRun, Setup, State};
use crate::num::tdiv;
use crate::order_laws::law_bonus_is_heard;
use crate::position::{after, Position};
use crate::reftree::{ref_again, ref_q_absorbed, RefQRun};
use crate::score::{
    from_tt, hist_bonus_s, mate_s, mated, to_tt, INF, MATE, MATE_IN_MAX,
};
use crate::searcher::{at_ease, weary};
use crate::tree::{absorbed, again_credited, settled, stepped, table_reduction, Run};
use crate::types::PieceType;
use std::time::Instant;

verus! {

// ---------------------------------------------------------------------------
// Worth
// ---------------------------------------------------------------------------
/// A draw costs the root the contempt: where the root's side is to move it is
/// worth that much less than nothing, and where the other side is, that much more.
pub proof fn law_a_draw_costs_the_root(c: Setup, ply: int)
    requires
        0 <= ply,
    ensures
        draw_s(c, 2 * ply) == -c.params.contempt,
        draw_s(c, 2 * ply + 1) == c.params.contempt,
        c.params.contempt == 0 ==> draw_s(c, ply) == 0,
{
}

/// Mates outrank everything: being mated later is better than sooner, mating
/// sooner better than later, any of it further from level than what is no mate,
/// and all of it within the widest window. A mate keeps its distance from the node
/// it is stored at, and what is no mate is stored as it is.
pub proof fn law_mates_outrank(ply: int, score: int, at: int)
    requires
        0 <= ply < 128,
        -MATE_IN_MAX < score < MATE_IN_MAX,
        0 <= at < 128,
    ensures
        mate_s(ply) < mate_s(ply + 1) < score < -mate_s(ply + 1) < -mate_s(ply),
        -INF < mate_s(ply) && -mate_s(ply) < INF,
        mated(mate_s(ply)) && mated(-mate_s(ply)) && !mated(score),
        mate_s(0) == -MATE,
        to_tt(score, at) == score && from_tt(score, at) == score,
        ply >= at ==> to_tt(mate_s(ply), at) == mate_s(ply - at) && to_tt(-mate_s(ply), at)
            == -mate_s(ply - at),
{
}

/// What a capture wins at once is counted double, as the network counts: the
/// piece that stands on the square, a pawn taken in passing, and for a promotion
/// what the new piece is worth more than the pawn.
pub proof fn law_what_a_capture_gains(p: Position, mv: Move)
    ensures
        mv.flag == MoveFlag::EnPassant && mv.promotion is None ==> gain_s(p, mv) == 200,
        mv.flag != MoveFlag::EnPassant && mv.promotion is None ==> (p.piece_s(mv.to as int)
            matches Some((pt, c)) ==> gain_s(p, mv) == 2 * pt.worth()),
        mv.flag != MoveFlag::EnPassant && mv.promotion is None && p.piece_s(mv.to as int) is None
            ==> gain_s(p, mv) == 0,
        mv.promotion matches Some(pt) ==> gain_s(p, mv) == gain_s(
            p,
            Move { promotion: None, ..mv },
        ) + 2 * (pt.worth() - PieceType::Pawn.worth()),
{
}

/// Where that is on, a capture that with a margin of a pawn could not bring the
/// evaluation above alpha is passed over out of check, unless the best so far is a
/// mate; where it is off, none is for that.
pub proof fn law_hopeless_captures(
    c: Setup,
    p: Position,
    eval: int,
    best: int,
    alpha: int,
    mv: Move,
)
    requires
        crate::see::see_s(p, mv) >= 0,
        eval != crate::node::NO_EVAL,
    ensures
        q_skips(c, p, false, eval, best, alpha, mv) <==> c.features.qs_futility && -MATE_IN_MAX
            < best < MATE_IN_MAX && alpha - eval >= gain_s(p, mv) + 2 * PieceType::Pawn.worth(),
{
    reveal(crate::see::see_ge_s);
}

/// A quiescence node keeps the best of its scores, raises its window with it and
/// takes the move where it does, and is over where it reaches beta.
pub proof fn law_quiescence_takes_a_score_in(r: QRun, mv: Move, score: int, beta: int)
    requires
        r.best <= r.alpha < beta,
        !r.done,
    ensures
        ({
            let a = q_absorbed(r, mv, score, beta);
            &&& score <= r.best ==> a == r
            &&& score > r.best ==> a.best == score
            &&& score <= r.alpha ==> a.alpha == r.alpha && a.best_move == r.best_move
            &&& score > r.alpha ==> a.alpha == score && a.best_move == Some(mv)
            &&& a.done <==> score >= beta
            &&& a.st == r.st
        }),
{
}

/// The same of the staged quiescence search.
pub proof fn law_staged_quiescence_takes_a_score_in(r: RefQRun, mv: Move, score: int, beta: int)
    requires
        r.best <= r.alpha < beta,
        !r.done,
    ensures
        ({
            let a = ref_q_absorbed(r, mv, score, beta);
            &&& score <= r.best ==> a.best == r.best
            &&& score > r.best ==> a.best == score
            &&& score <= r.alpha ==> a.alpha == r.alpha && a.best_move == r.best_move
            &&& score > r.alpha ==> a.alpha == score && a.best_move == Some(mv)
            &&& a.done <==> score >= beta
        }),
{
}

// ---------------------------------------------------------------------------
// Reductions by the table
// ---------------------------------------------------------------------------
/// In 1024ths of a ply: a capture is reduced by half of what a quiet move is
/// before the rest counts; a node expected to fail high, one off the principal
/// variation and one that never earned a full window each add what they are set
/// to; and a history of so much takes a ply off, two at most.
pub proof fn law_reductions_by_the_table(
    c: Setup,
    n: Node,
    cut: Node,
    pv: Node,
    earned: Node,
    i: int,
)
    requires
        c.params.wf(),
        !n.cut_node && !n.pv_node && !n.tt_pv,
        cut == (Node { cut_node: true, ..n }),
        pv == (Node { pv_node: true, ..n }),
        earned == (Node { tt_pv: true, ..n }),
        0 <= c.lmr[(if n.depth < 63 { n.depth as int } else { 63 }) * 64 + (if i < 63 {
            i
        } else {
            63
        })],
    ensures
        ({
            let plies = c.lmr[(if n.depth < 63 { n.depth as int } else { 63 }) * 64 + (if i < 63 {
                i
            } else {
                63
            })];
            let quiet = table_reduction(c, n, true, 0, i);
            let taking = table_reduction(c, n, false, 0, i);
            let div = c.params.lmr_hist_div as int;
            &&& quiet == 1024 * plies + c.params.lmr_nonpv_f
            &&& taking == 512 * plies + c.params.lmr_nonpv_f
            &&& table_reduction(c, pv, true, 0, i) == quiet - c.params.lmr_nonpv_f
            &&& c.features.cut_node_lmr ==> table_reduction(c, cut, true, 0, i) == quiet
                + c.params.lmr_cut_f
            &&& !c.features.cut_node_lmr ==> table_reduction(c, cut, true, 0, i) == quiet
            &&& c.features.ttpv_lmr ==> table_reduction(c, earned, true, 0, i) == quiet
                - c.params.lmr_ttpv_f
            &&& !c.features.ttpv_lmr ==> table_reduction(c, earned, true, 0, i) == quiet
            &&& table_reduction(c, n, true, div, i) == quiet - 1024
            &&& table_reduction(c, n, true, -div, i) == quiet + 1024
            &&& table_reduction(c, n, true, 3 * div, i) == quiet - 2048
            &&& table_reduction(c, n, true, -3 * div, i) == quiet + 2048
        }),
{
    let div = c.params.lmr_hist_div as int;
    assert(tdiv(0, div) == 0) by (nonlinear_arith)
        requires
            div > 0,
    ;
    assert(tdiv(div * 1024, div) == 1024) by (nonlinear_arith)
        requires
            div > 0,
    ;
    assert(tdiv(-div * 1024, div) == -1024) by (nonlinear_arith)
        requires
            div > 0,
    ;
    assert(tdiv(3 * div * 1024, div) == 3072) by (nonlinear_arith)
        requires
            div > 0,
    ;
    assert(tdiv(-3 * div * 1024, div) == -3072) by (nonlinear_arith)
        requires
            div > 0,
    ;
}

// ---------------------------------------------------------------------------
// A second look
// ---------------------------------------------------------------------------
/// A quiet move that had to be searched again is credited where it turned out
/// better than the best so far, and charged where it did not, by what a cutoff of
/// that depth is worth.
pub proof fn law_second_look_teaches(
    st: State,
    p: Position,
    mv: Move,
    depth: int,
    ply: int,
)
    requires
        st.lore.wf(),
        st.trail.wf(),
        mv.wf(),
        mv.quiet(),
        0 <= ply < 128,
        1 <= depth,
    ensures
        ({
            let slots = st.trail.slots(ply);
            let before = history_s(st.lore, p, mv, slots);
            let at = main_at(p.us(), mv.from as int, mv.to as int);
            let up = again_credited(st, p, mv, depth, ply, true).lore;
            let down = again_credited(st, p, mv, depth, ply, false).lore;
            &&& history_s(up, p, mv, slots) >= before
            &&& history_s(down, p, mv, slots) <= before
            &&& st.lore.history[at] < 15_000 ==> history_s(up, p, mv, slots) > before
            &&& st.lore.history[at] > -15_000 ==> history_s(down, p, mv, slots) < before
        }),
{
    crate::deepen_laws::law_continuations_go_back(st.trail, ply);
    law_credit_is_heard(st.lore, p, mv, st.trail.slots(ply), hist_bonus_s(depth));
    law_credit_is_heard(st.lore, p, mv, st.trail.slots(ply), -hist_bonus_s(depth));
}

/// The same of the staged search.
pub proof fn law_staged_second_look_teaches(
    st: State,
    p: Position,
    n: Node,
    mv: Move,
    slots: Slots,
)
    requires
        st.refs.wf(),
        replies_ok(slots),
        mv.wf(),
        p.piece_s(mv.from as int) is Some,
        1 <= n.depth,
    ensures
        ({
            let before = crate::histories::quiet_score_s(st.refs, p, mv, slots);
            let up = ref_again(st, p, n, mv, slots, true).refs;
            let down = ref_again(st, p, n, mv, slots, false).refs;
            &&& crate::histories::quiet_score_s(up, p, mv, slots) >= before
            &&& crate::histories::quiet_score_s(down, p, mv, slots) <= before
            &&& st.refs.main[p.us()][mv.from * 64 + mv.to] < 15_000
                ==> crate::histories::quiet_score_s(up, p, mv, slots) > before
            &&& st.refs.main[p.us()][mv.from * 64 + mv.to] > -15_000
                ==> crate::histories::quiet_score_s(down, p, mv, slots) < before
        }),
{
    law_bonus_is_heard(st.refs, p, mv, slots, hist_bonus_s(n.depth as int));
    law_bonus_is_heard(st.refs, p, mv, slots, -hist_bonus_s(n.depth as int));
}

/// Short of beta, all that a score teaches is what a second look taught: nothing
/// where there was none, or where the move is no quiet one; and that goes by
/// whether the score is above the best so far.
pub proof fn law_what_a_score_leaves(
    c: Setup,
    p: Position,
    n: Node,
    r: Run,
    st: State,
    mv: Move,
    score: int,
    again: bool,
)
    requires
        score < n.beta,
        n.ply > 0,
    ensures
        ({
            let x = settled(c, p, n, r, st, mv, score, again);
            &&& !again || !mv.quiet() ==> x.st.lore == st.lore
            &&& again && mv.quiet() ==> x.st.lore == again_credited(
                st,
                p,
                mv,
                n.depth as int,
                n.ply as int,
                score > r.best,
            ).lore
        }),
{
    reveal(settled);
    reveal(absorbed);
}

/// A move that is made is on the trail: what moved and where to, and the key of
/// the position it led to behind all the others.
pub proof fn law_a_move_is_on_the_trail(st: State, p: Position, mv: Move, ply: int)
    requires
        st.trail.wf(),
        0 <= ply < 128,
    ensures
        ({
            let t = stepped(st, p, mv, ply).trail;
            &&& t.keys == st.trail.keys.push(hash_s(after(p, mv)))
            &&& p.piece_s(mv.from as int) matches Some((pt, c)) ==> t.played[ply] == Some(
                (pt.index() as usize, mv.to as usize),
            )
            &&& t.last_played(ply + 1) == t.played[ply]
            &&& t.without_key().keys == st.trail.keys
        }),
{
    let t = stepped(st, p, mv, ply).trail;
    assert(t.without_key().keys =~= st.trail.keys);
}

// ---------------------------------------------------------------------------
// Room
// ---------------------------------------------------------------------------
/// Room for another iteration was seen only with the plan not yet gone, and more
/// of a plan leaves room where less did; a search is at ease with less than twice
/// its plan gone and weary with twice or more.
pub proof fn law_room_within_the_plan(start: &Instant, soft: int, more: int)
    requires
        0 <= soft <= more,
    ensures
        room(start, soft) ==> room(start, more),
        no_room(start, more) ==> no_room(start, soft),
        room(start, soft) ==> exists|elapsed: u128| #[trigger]
            clock_says(start, elapsed) && elapsed < soft,
        at_ease(start, soft) ==> exists|elapsed: u128| #[trigger]
            clock_says(start, elapsed) && elapsed < 2 * soft,
        weary(start, soft) ==> exists|elapsed: u128| #[trigger]
            clock_says(start, elapsed) && elapsed >= 2 * soft,
        (forall|elapsed: u128| #[trigger] clock_says(start, elapsed) ==> elapsed >= soft) ==> !room(
            start,
            soft,
        ),
        !room(start, 0),
{
}

}
