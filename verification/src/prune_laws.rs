//! What holds of the shortcuts the search takes: pruning, extensions,
//! reductions.
use vstd::prelude::*;
use crate::moves::Move;
use crate::node::{improving_s, Node, Setup, State, NO_EVAL};
use crate::num::{log2_floor, tdiv};
use crate::position::{after_null, Position};
use crate::reftree::{
    ref_depth, ref_eased, ref_null_depth, ref_null_s, ref_null_tries, ref_reduces, ref_reduction,
    ref_rfp_s, ref_s, ref_singular_s, ref_singular_tries, ref_singular_verdict, ref_skips,
};
use crate::quiet_laws::claims;
use crate::board::hash_s;
use crate::score::{from_tt, has_force, MATE_IN_MAX};
use crate::see::{law_exchange_bars, see_ge_s};
use crate::trail::TrailView;
use crate::tree::{
    child_depth, eased, late_count, negamax_s, null_reduction, null_s, null_tries, probcut_s,
    quiet_verdict, razors, reduction_s, settled, shallow_s, singular_s, singular_tries,
    singular_verdict, teaches, Run, Singular, Verdict,
};
use crate::tt::Bound;
use crate::types::Color;

verus! {

proof fn lemma_tdiv_grows(a: int, b: int, d: int)
    requires
        a <= b,
        d > 0,
    ensures
        tdiv(a, d) <= tdiv(b, d),
{
    if a >= 0 {
        vstd::arithmetic::div_mod::lemma_div_is_ordered(a, b, d);
    } else if b < 0 {
        vstd::arithmetic::div_mod::lemma_div_is_ordered(-b, -a, d);
    } else {
        vstd::arithmetic::div_mod::lemma_div_pos_is_pos(-a, d);
        vstd::arithmetic::div_mod::lemma_div_pos_is_pos(b, d);
    }
}

// ---------------------------------------------------------------------------
// Whole-node pruning
// ---------------------------------------------------------------------------
/// Staged reverse futility asks for a pawn and a half a ply, one ply less where
/// the position is improving, below nine plies and away from mates, and answers
/// with the evaluation.
pub proof fn law_staged_reverse_futility(n: Node, m: Node)
    ensures
        ref_rfp_s(n) is Some <==> !n.pv_node && !n.in_check && n.excluded is None && n.depth <= 8
            && -MATE_IN_MAX < n.sharp < MATE_IN_MAX && n.sharp - n.beta >= 150 * n.depth - (
        if n.improving {
            150int
        } else {
            0
        }),
        ref_rfp_s(n) matches Some(v) ==> v == n.sharp,
        ref_rfp_s(n) is Some && !m.pv_node && !m.in_check && m.excluded is None && m.beta == n.beta
            && n.sharp <= m.sharp < MATE_IN_MAX && m.depth <= n.depth && (n.improving
            ==> m.improving) ==> ref_rfp_s(m) is Some,
{
}

/// Razoring is for a shallow node whose evaluation falls short of alpha by the
/// margin of every ply left, in a game that is not decided: an evaluation that
/// is worse, or an alpha that is higher, never stops it.
pub proof fn law_razoring(c: Setup, n: Node, m: Node, alpha: int, higher: int)
    requires
        c.params.wf(),
    ensures
        razors(c, n, alpha) <==> c.features.razoring && n.depth <= c.params.razor_depth && -2000
            < alpha < 2000 && alpha - n.eval >= c.params.razor_margin * n.depth,
        razors(c, n, alpha) && m.depth == n.depth && m.eval <= n.eval && alpha <= higher < 2000
            ==> razors(c, m, higher),
{
}

/// Either search passes only with the evaluation at beta or better on both
/// counts, a piece besides pawns to pass with, and no pass just made.
pub proof fn law_when_to_pass(c: Setup, st: State, p: Position, n: Node)
    ensures
        null_tries(c, st, p, n) || ref_null_tries(st, p, n) ==> {
            &&& n.sharp >= n.beta
            &&& !st.trail.just_passed(n.ply as int)
            &&& has_force(p, p.side)
        },
        null_tries(c, st, p, n) ==> n.depth >= 3 && n.sharp >= n.eval && n.eval - n.beta >= 100 - 20
            * n.depth - (if n.improving {
            40int
        } else {
            0
        }) && (n.cut_node || !c.features.nmp_cut_node),
        ref_null_tries(st, p, n) ==> !n.pv_node && !n.in_check && n.excluded is None && n.sharp
            >= n.raw && n.raw - n.beta >= 100 - 20 * n.depth - (if n.improving {
            40int
        } else {
            0
        }),
        n.depth >= 5 && n.sharp >= n.beta && n.sharp >= n.eval && n.eval >= n.beta && n.cut_node
            && has_force(p, p.side) && !st.trail.just_passed(n.ply as int) ==> null_tries(
            c,
            st,
            p,
            n,
        ),
        n.depth >= 5 && n.sharp >= n.beta && n.sharp >= n.raw && n.raw >= n.beta && !n.pv_node
            && !n.in_check && n.excluded is None && has_force(p, p.side) && !st.trail.just_passed(
            n.ply as int,
        ) ==> ref_null_tries(st, p, n),
{
}

/// A side has force exactly where it has a knight, a bishop, a rook or a queen:
/// pawns and the king are not enough.
pub proof fn law_what_force_is(p: Position, side: Color)
    ensures
        has_force(p, side) <==> p.pieces[side.index()][1] != 0 || p.pieces[side.index()][2] != 0
            || p.pieces[side.index()][3] != 0 || p.pieces[side.index()][4] != 0,
{
    let a = p.pieces[side.index()][1];
    let b = p.pieces[side.index()][2];
    let c = p.pieces[side.index()][3];
    let d = p.pieces[side.index()][4];
    assert((a | b | c | d) != 0 <==> a != 0 || b != 0 || c != 0 || d != 0) by (bit_vector);
}

/// A pass is searched shallower the further the node stands above beta: a ply
/// for every two hundred, up to a limit.
pub proof fn law_pass_reduction(c: Setup, n: Node, m: Node)
    requires
        c.params.wf(),
        n.sharp >= n.beta,
    ensures
        c.params.nmp_base <= null_reduction(c, n) <= c.params.nmp_base + c.params.nmp_div,
        n.sharp < n.beta + 200 ==> null_reduction(c, n) == c.params.nmp_base,
        m.beta == n.beta && m.sharp == n.sharp + 200 ==> null_reduction(c, m) == null_reduction(
            c,
            n,
        ) + 1 || null_reduction(c, m) == null_reduction(c, n) && null_reduction(c, n)
            == c.params.nmp_base + c.params.nmp_div,
        n.depth >= 10 ==> n.depth - 10 <= ref_null_depth(n) <= n.depth - 4,
        n.sharp < n.beta + 200 && n.depth >= 4 ==> ref_null_depth(n) == n.depth - 4,
        n.depth <= 4 ==> ref_null_depth(n) == 0,
        n.depth >= 10 && m.depth == n.depth && m.beta == n.beta && m.sharp == n.sharp + 200
            ==> ref_null_depth(m) == ref_null_depth(n) - 1 || ref_null_depth(m) == ref_null_depth(n)
            == n.depth - 10,
{
}

/// A pass answers for a node only where the other side, to move in the position
/// after it, is held to beta; the answer is never a mate, which a pass does not
/// prove, but beta.
pub proof fn law_pass_answers(c: Setup, st: State, p: Position, n: Node)
    requires
        n.ply < 127,
        -MATE_IN_MAX < n.beta < MATE_IN_MAX,
    ensures
        ({
            let q = after_null(p);
            let s0 = st.on_trail(st.trail.with_key(hash_s(q)).with_null(n.ply as int, true));
            let theirs = negamax_s(
                c,
                s0,
                q,
                n.depth - null_reduction(c, n),
                -n.beta,
                -n.beta + 1,
                n.ply + 1,
                false,
                !n.cut_node,
                None,
            ).1;
            let said = null_s(c, st, p, n).1;
            &&& said is Some <==> theirs <= -n.beta
            &&& said matches Some(v) ==> n.beta <= v < MATE_IN_MAX
            &&& said matches Some(v) ==> v == -theirs || v == n.beta && theirs <= -MATE_IN_MAX
        }),
        ({
            let q = after_null(p);
            let s0 = st.on_trail(st.trail.with_key(hash_s(q)).with_null(n.ply as int, true));
            let theirs = ref_s(
                c,
                s0,
                q,
                ref_null_depth(n),
                -n.beta,
                -n.beta + 1,
                n.ply + 1,
                false,
                !n.cut_node,
                None,
            ).1;
            let said = ref_null_s(c, st, p, n).1;
            &&& said is Some <==> theirs <= -n.beta
            &&& said matches Some(v) ==> n.beta <= v < MATE_IN_MAX
            &&& said matches Some(v) ==> v == -theirs || v == n.beta && theirs <= -MATE_IN_MAX
        }),
{
    reveal(null_s);
    reveal(negamax_s);
    reveal(ref_null_s);
    reveal(ref_s);
}

/// A stored score answers for a node only if what the entry claims puts it above
/// beta by the margin, was searched to within two plies, and is no mate.
pub proof fn law_stored_floor_answers(c: Setup, n: Node)
    requires
        c.params.wf(),
    ensures
        probcut_s(c, n) matches Some(v) ==> {
            &&& n.entry matches Some(e) && v == from_tt(e.score as int, n.ply as int) && e.depth + 2
                >= n.depth && forall|w: int| #[trigger]
                claims(e.bound, v, w) ==> w >= n.beta + c.params.probcut_margin
            &&& -MATE_IN_MAX < v < MATE_IN_MAX
            &&& !n.pv_node && !n.in_check && n.excluded is None
        },
        n.entry matches Some(e) ==> {
            let v = from_tt(e.score as int, n.ply as int);
            c.features.probcut && !n.pv_node && !n.in_check && n.excluded is None && e.bound
                != Bound::NoBound && e.depth + 2 >= n.depth && (forall|w: int| #[trigger]
                claims(e.bound, v, w) ==> w >= n.beta + c.params.probcut_margin) && -MATE_IN_MAX
                < n.beta < MATE_IN_MAX && -MATE_IN_MAX < v < MATE_IN_MAX ==> probcut_s(c, n) is Some
        },
{
    if let Some(e) = n.entry {
        let v = from_tt(e.score as int, n.ply as int);
        let low = n.beta + c.params.probcut_margin - 1;
        let lower = if low < v { low } else { v - 1 };
        if e.bound == Bound::Upper {
            assert(claims(e.bound, v, lower));
        } else if e.bound != Bound::NoBound {
            assert(claims(e.bound, v, v));
        }
    }
}

/// A node with no move to try first is searched a ply shallower; a staged one on
/// the principal variation two. Nothing else about the node changes.
pub proof fn law_nothing_to_try_first(c: Setup, n: Node)
    requires
        -1000 <= n.depth,
    ensures
        n.entry matches Some(e) && e.best is Some ==> eased(c, n) == n && ref_eased(n) == n,
        n.depth <= 3 || !c.features.iir ==> eased(c, n) == n,
        n.in_check || !n.pv_node || n.ply == 0 ==> ref_eased(n) == n,
        n.depth >= 4 && c.features.iir && n.entry is None ==> eased(c, n) == (Node {
            depth: (n.depth - 1) as i32,
            ..n
        }),
        !n.in_check && n.pv_node && n.ply > 0 && n.entry is None ==> ref_eased(n) == (Node {
            depth: (n.depth - 2) as i32,
            ..n
        }),
{
}

/// A position improves where it is worth more than it was two plies before; four
/// where the side was in check two plies before. A better evaluation never stops
/// it.
pub proof fn law_improving(t: TrailView, ply: int, eval: int, better: int)
    requires
        eval <= better,
    ensures
        ply < 2 ==> !improving_s(t, ply, eval),
        ply >= 2 && t.eval_stack[ply - 2] != NO_EVAL ==> (improving_s(t, ply, eval) <==> eval
            > t.eval_stack[ply - 2]),
        ply >= 4 && t.eval_stack[ply - 2] == NO_EVAL && t.eval_stack[ply - 4] != NO_EVAL ==> (
        improving_s(t, ply, eval) <==> eval > t.eval_stack[ply - 4]),
        ply >= 2 && t.eval_stack[ply - 2] == NO_EVAL && (ply < 4 || t.eval_stack[ply - 4]
            == NO_EVAL) ==> !improving_s(t, ply, eval),
        improving_s(t, ply, eval) ==> improving_s(t, ply, better),
{
}

// ---------------------------------------------------------------------------
// Moves passed over
// ---------------------------------------------------------------------------
/// A quiet move is searched exactly where it comes early enough, where the
/// evaluation with the margin could still reach alpha, where the history is not
/// all against it, and where the exchange it offers does not lose too much.
pub proof fn law_which_quiet_moves_are_searched(
    c: Setup,
    p: Position,
    n: Node,
    alpha: int,
    mv: Move,
    hist: int,
    i: int,
)
    ensures
        ({
            let d = n.depth as int;
            let early = n.depth > c.params.lmp_depth || i < late_count(c, n);
            let hopeful = n.depth > c.params.fut_depth || n.eval + c.params.fut_base
                + c.params.fut_slope * d + tdiv(hist, c.params.fut_hist_div as int) > alpha;
            let liked = !c.features.history_prune || n.depth > 4 || hist >= -c.params.hist_prune * (
            d * d);
            let sound = n.depth > 8 || see_ge_s(p, mv, -c.params.see_prune_quiet * (d + d * d));
            let v = quiet_verdict(c, p, n, alpha, mv, hist, i);
            &&& v == Verdict::Search <==> early && hopeful && liked && sound
            &&& v == Verdict::Break <==> !early || !hopeful
        }),
{
}

/// How many quiet moves are let through: the base and the depth squared, half
/// where the position does not improve; deeper never lets fewer through.
pub proof fn law_how_many_come_early(c: Setup, n: Node, m: Node)
    requires
        c.params.wf(),
        0 <= n.depth <= m.depth,
    ensures
        n.improving || !c.features.lmp_improving ==> late_count(c, n) == c.params.lmp_base + n.depth
            * n.depth,
        !n.improving && c.features.lmp_improving ==> c.params.lmp_base + n.depth * n.depth - 1 <= 2
            * late_count(c, n) <= c.params.lmp_base + n.depth * n.depth,
        n.improving == m.improving ==> late_count(c, n) <= late_count(c, m),
{
    assert(n.depth * n.depth <= m.depth * m.depth) by (nonlinear_arith)
        requires
            0 <= n.depth <= m.depth,
    ;
}

/// What is searched stays searched where it comes earlier, is thought better of,
/// stands to a lower alpha, or the node is worth more.
pub proof fn law_better_prospects_are_searched(
    c: Setup,
    p: Position,
    n: Node,
    m: Node,
    alpha: int,
    lower: int,
    mv: Move,
    hist: int,
    liked: int,
    i: int,
    earlier: int,
)
    requires
        c.params.wf(),
        m.depth == n.depth && m.improving == n.improving && m.eval >= n.eval,
        lower <= alpha,
        hist <= liked,
        earlier <= i,
        quiet_verdict(c, p, n, alpha, mv, hist, i) == Verdict::Search,
    ensures
        quiet_verdict(c, p, m, lower, mv, liked, earlier) == Verdict::Search,
{
    lemma_tdiv_grows(hist, liked, c.params.fut_hist_div as int);
}

/// A capture that does not lose material is never passed over, and one that does
/// only close to the leaves; neither search passes over anything at the root,
/// with a mate to avoid, or with only pawns left.
pub proof fn law_sound_captures_are_searched(
    c: Setup,
    p: Position,
    n: Node,
    best: int,
    alpha: int,
    mv: Move,
    hist: int,
    i: int,
    count: int,
)
    requires
        c.params.wf(),
        n.depth >= 0,
        !mv.quiet(),
    ensures
        see_ge_s(p, mv, 0) ==> shallow_s(c, p, n, best, alpha, mv, hist, i) == Verdict::Search
            && !ref_skips(p, n, best, alpha, mv, hist, count),
        n.depth > 8 ==> shallow_s(c, p, n, best, alpha, mv, hist, i) == Verdict::Search,
        n.depth > 9 ==> !ref_skips(p, n, best, alpha, mv, hist, count),
        n.ply > 0 && !n.pv_node && !n.in_check && best > -MATE_IN_MAX && has_force(p, p.side)
            && n.depth <= 8 ==> (shallow_s(c, p, n, best, alpha, mv, hist, i) == Verdict::Search
            <==> see_ge_s(p, mv, -c.params.see_prune * n.depth)),
        n.ply > 0 && best > -MATE_IN_MAX && has_force(p, p.side) && n.depth < 10 ==> (ref_skips(
            p,
            n,
            best,
            alpha,
            mv,
            hist,
            count,
        ) <==> !see_ge_s(p, mv, -140 * n.depth)),
{
    reveal(shallow_s);
    reveal(ref_skips);
    assert(-c.params.see_prune * n.depth <= 0) by (nonlinear_arith)
        requires
            c.params.see_prune >= 0,
            n.depth >= 0,
    ;
    if see_ge_s(p, mv, 0) {
        law_exchange_bars(p, mv, 0, -c.params.see_prune * n.depth);
        law_exchange_bars(p, mv, 0, -140 * n.depth);
    }
}

/// Nothing is passed over at the root, while the best is a loss to mate, or
/// where only pawns are left; nor, but by the staged search, in check or on the
/// principal variation.
pub proof fn law_nothing_passed_over(
    c: Setup,
    p: Position,
    n: Node,
    best: int,
    alpha: int,
    mv: Move,
    hist: int,
    i: int,
    count: int,
)
    ensures
        n.ply == 0 || best <= -MATE_IN_MAX || !has_force(p, p.side) ==> shallow_s(
            c,
            p,
            n,
            best,
            alpha,
            mv,
            hist,
            i,
        ) == Verdict::Search && !ref_skips(p, n, best, alpha, mv, hist, count),
        n.pv_node || n.in_check ==> shallow_s(c, p, n, best, alpha, mv, hist, i)
            == Verdict::Search,
{
    reveal(shallow_s);
    reveal(ref_skips);
}

/// The staged search passes over a quiet move that comes too late, that its
/// history is all against, that could not bring the evaluation to alpha, or that
/// loses too much; and over no other.
pub proof fn law_staged_quiet_moves(
    p: Position,
    n: Node,
    best: int,
    alpha: int,
    mv: Move,
    score: int,
    count: int,
)
    requires
        n.ply > 0,
        has_force(p, p.side),
        best > -MATE_IN_MAX,
        mv.quiet(),
    ensures
        ({
            let d = n.depth as int;
            let early = d >= 7 || count <= 3 + d * d;
            let liked = score >= -600 * (d * d);
            let hopeful = n.in_check || d >= 12 || n.raw == NO_EVAL || n.raw + 100 + 150 * d + tdiv(
                score,
                75,
            ) >= alpha;
            let sound = d >= 10 || see_ge_s(p, mv, -10 * (d + d * d));
            !ref_skips(p, n, best, alpha, mv, score, count) <==> early && liked && hopeful && sound
        }),
{
    reveal(ref_skips);
}

// ---------------------------------------------------------------------------
// Extensions
// ---------------------------------------------------------------------------
/// The table's move is extended only where every other move was searched and
/// fell short of a mark below its score; by two only off the principal variation
/// and where they fell short by far. A node is answered for only at beta or
/// better, and a move is searched shallower only where its own score already
/// reaches beta.
pub proof fn law_only_move_is_extended(
    c: Setup,
    n: Node,
    s: int,
    lower: int,
    ts: int,
    target: int,
)
    requires
        c.params.wf(),
        lower <= s,
    ensures
        match singular_verdict(c, n, s, ts, target) {
            Singular::Extend(k) => {
                &&& -1 <= k <= 2
                &&& k > 0 <==> s < target
                &&& k == 2 <==> s < target - c.params.double_ext && s < target && !n.pv_node
                &&& k == -1 ==> ts >= n.beta && target < n.beta
            },
            Singular::Return(v) => s >= target && v >= n.beta && (v == target || v == s
                && !n.pv_node && -MATE_IN_MAX < s < MATE_IN_MAX),
        },
        match ref_singular_verdict(n, s, target) {
            Singular::Extend(k) => {
                &&& 0 <= k <= 2
                &&& k > 0 <==> s < target
                &&& k == 2 <==> s < target - 40 && !n.pv_node && n.ply < n.depth
            },
            Singular::Return(v) => s >= target && v == target && v >= n.beta && !n.pv_node,
        },
        s >= target && target >= n.beta ==> singular_verdict(c, n, s, ts, target) is Return,
        s >= target && target >= n.beta && !n.pv_node ==> ref_singular_verdict(n, s, target)
            is Return,
        singular_verdict(c, n, s, ts, target) matches Singular::Extend(k) ==> (singular_verdict(
            c,
            n,
            lower,
            ts,
            target,
        ) matches Singular::Extend(j) && (k > 0 ==> j >= k)) || s >= target,
{
}

/// Whether a move is the only one is asked of the table's move alone, below the
/// root, deep enough, with no move excluded already, and of an entry that holds a
/// floor or the score itself, searched to within three plies and no mate.
pub proof fn law_who_may_be_the_only_move(c: Setup, n: Node, mv: Move)
    ensures
        singular_tries(c, n, mv) is Some || ref_singular_tries(n, mv) is Some ==> {
            &&& n.ply > 0
            &&& n.excluded is None
            &&& n.entry matches Some(e) && e.best == Some(mv) && e.depth + 3 >= n.depth && e.bound
                != Bound::Upper && e.bound != Bound::NoBound
        },
        singular_tries(c, n, mv) matches Some(ts) ==> n.depth >= c.params.sing_depth && n.ply < 120
            && -MATE_IN_MAX < ts < MATE_IN_MAX && (n.entry matches Some(e) && ts == from_tt(
            e.score as int,
            n.ply as int,
        )),
        ref_singular_tries(n, mv) matches Some(ts) ==> n.depth >= 5 && -MATE_IN_MAX < ts
            < MATE_IN_MAX && (n.entry matches Some(e) && ts == from_tt(
            e.score as int,
            n.ply as int,
        )),
        n.ply == 0 ==> singular_tries(c, n, mv) is None && ref_singular_tries(n, mv) is None,
{
}

/// The other moves are searched with the table's move left out, to half the
/// depth, against a mark that lies below its score by so much a ply.
pub proof fn law_mark_for_the_others(c: Setup, st: State, p: Position, n: Node, mv: Move)
    requires
        n.ply < 127,
    ensures
        singular_tries(c, n, mv) matches Some(ts) ==> {
            let mark = ts - c.params.sing_margin * n.depth;
            let s = negamax_s(
                c,
                st,
                p,
                tdiv(n.depth - 1, 2),
                mark - 1,
                mark,
                n.ply as int,
                false,
                n.cut_node,
                Some(mv),
            ).1;
            let said = singular_s(c, st, p, n, mv).1;
            &&& s < mark <==> (said matches Singular::Extend(k) && k > 0)
        },
        singular_tries(c, n, mv) is None ==> singular_s(c, st, p, n, mv) == (
            st,
            Singular::Extend(0),
        ),
        ref_singular_tries(n, mv) matches Some(ts) ==> {
            let mark = ts - 2 * n.depth;
            let s = ref_s(
                c,
                st,
                p,
                tdiv(n.depth - 1, 2),
                mark - 1,
                mark,
                n.ply as int,
                false,
                n.cut_node,
                Some(mv),
            ).1;
            let said = ref_singular_s(c, st, p, n, mv).1;
            &&& s < mark <==> (said matches Singular::Extend(k) && k > 0)
        },
        ref_singular_tries(n, mv) is None ==> ref_singular_s(c, st, p, n, mv) == (
            st,
            Singular::Extend(0),
        ),
{
    reveal(singular_s);
    reveal(negamax_s);
    reveal(ref_singular_s);
    reveal(ref_s);
}

/// A child is searched a ply shallower than its node, and deeper only by what
/// the move was extended or for a check: a quiet answer changes nothing, and a
/// check never makes it shallower in the one search. In the staged one a check
/// with the evaluation away from level is worth one ply whatever was found.
pub proof fn law_depth_of_a_child(c: Setup, n: Node, q: Position, ext: int)
    ensures
        !q.in_check() ==> child_depth(c, n, q, ext) == n.depth - 1 + ext && ref_depth(n, q, ext)
            == n.depth + ext,
        n.depth - 1 + ext <= child_depth(c, n, q, ext),
        child_depth(c, n, q, ext) == n.depth - 1 + ext || child_depth(c, n, q, ext) == n.depth,
        q.in_check() && n.raw != NO_EVAL && (n.raw > 75 || n.raw < -75) ==> ref_depth(n, q, ext)
            == n.depth + 1,
        -75 <= n.raw <= 75 || n.raw == NO_EVAL ==> ref_depth(n, q, ext) == n.depth + ext,
{
}

// ---------------------------------------------------------------------------
// Reductions
// ---------------------------------------------------------------------------
/// A move the history likes better is never searched shallower.
pub proof fn law_liked_moves_go_deeper(
    c: Setup,
    n: Node,
    mv: Move,
    hist: int,
    liked: int,
    i: int,
    nd: int,
)
    requires
        c.params.wf(),
        hist <= liked,
    ensures
        reduction_s(c, n, mv, liked, i, nd) <= reduction_s(c, n, mv, hist, i, nd),
        ref_reduction(n, mv, liked, i) <= ref_reduction(n, mv, hist, i),
{
    reveal(reduction_s);
    lemma_tdiv_grows(hist + 15000, liked + 15000, 30000);
    lemma_tdiv_grows(hist * 1024, liked * 1024, c.params.lmr_hist_div as int);
    lemma_tdiv_grows(
        crate::tree::table_reduction(c, n, mv.quiet(), liked, i),
        crate::tree::table_reduction(c, n, mv.quiet(), hist, i),
        1024,
    );
}

/// A node expected to fail high searches its late moves no deeper, by two plies
/// where the reduction goes by logarithms; one on the principal variation no
/// shallower.
pub proof fn law_where_reductions_grow(
    c: Setup,
    n: Node,
    cut: Node,
    off: Node,
    mv: Move,
    hist: int,
    i: int,
    nd: int,
)
    requires
        c.params.wf(),
        cut == (Node { cut_node: true, ..n }),
        off == (Node { pv_node: false, ..n }),
        !n.cut_node,
        n.pv_node,
    ensures
        reduction_s(c, n, mv, hist, i, nd) <= reduction_s(c, cut, mv, hist, i, nd),
        reduction_s(c, n, mv, hist, i, nd) <= reduction_s(c, off, mv, hist, i, nd),
        ref_reduction(cut, mv, hist, i) == ref_reduction(n, mv, hist, i) + 2,
        mv.quiet() ==> ref_reduction(off, mv, hist, i) == ref_reduction(n, mv, hist, i) + 1,
        !mv.quiet() ==> ref_reduction(off, mv, hist, i) == ref_reduction(n, mv, hist, i),
{
    reveal(reduction_s);
    lemma_tdiv_grows(
        crate::tree::table_reduction(c, n, mv.quiet(), hist, i),
        crate::tree::table_reduction(c, cut, mv.quiet(), hist, i),
        1024,
    );
    lemma_tdiv_grows(
        crate::tree::table_reduction(c, n, mv.quiet(), hist, i),
        crate::tree::table_reduction(c, off, mv.quiet(), hist, i),
        1024,
    );
}

proof fn lemma_log_grows(a: int, b: int)
    requires
        a <= b,
    ensures
        0 <= log2_floor(a) <= log2_floor(b),
    decreases b,
{
    if b > 1 {
        if a > 1 {
            lemma_log_grows(a / 2, b / 2);
        } else {
            lemma_log_grows(1, b / 2);
        }
    }
}

/// Where the reduction goes by logarithms, a move that comes later, or in a
/// deeper node, is never reduced less; and doubling twice either its place or the
/// depth takes one ply more.
pub proof fn law_later_moves_go_shallower(
    n: Node,
    deeper: Node,
    mv: Move,
    score: int,
    count: int,
    later: int,
)
    requires
        1 <= count <= later,
        1 <= n.depth,
        deeper.pv_node == n.pv_node && deeper.cut_node == n.cut_node && deeper.depth >= n.depth,
    ensures
        ref_reduction(n, mv, score, count) <= ref_reduction(n, mv, score, later),
        ref_reduction(n, mv, score, count) <= ref_reduction(deeper, mv, score, count),
        later == 4 * count ==> ref_reduction(n, mv, score, later) == ref_reduction(
            n,
            mv,
            score,
            count,
        ) + 1,
        deeper.depth == 4 * n.depth ==> ref_reduction(deeper, mv, score, count) == ref_reduction(
            n,
            mv,
            score,
            count,
        ) + 1,
{
    lemma_log_grows(count, later);
    lemma_log_grows(n.depth as int, deeper.depth as int);
    reveal_with_fuel(log2_floor, 3);
    if later == 4 * count {
        assert(later / 2 / 2 == count);
    }
    if deeper.depth == 4 * n.depth {
        assert(deeper.depth as int / 2 / 2 == n.depth);
    }
}

/// No first move is reduced by the staged search, none near the leaves, and at the
/// root the first three are not; off the principal variation every other move is.
pub proof fn law_which_moves_are_reduced(c: Setup, n: Node, mv: Move, hist: int, i: int, nd: int)
    ensures
        n.depth <= 2 || i <= 1 || n.ply == 0 && i <= 3 || n.pv_node && !mv.quiet() ==> !ref_reduces(
            n,
            mv,
            i,
        ),
        n.depth > 2 && i > 3 && !n.pv_node ==> ref_reduces(n, mv, i),
        n.depth > 2 && i > 1 && n.ply > 0 && !n.pv_node ==> ref_reduces(n, mv, i),
        n.depth > 2 && i > 3 && mv.quiet() ==> ref_reduces(n, mv, i),
        n.depth <= 2 ==> reduction_s(c, n, mv, hist, i, nd) == 0,
        n.pv_node && !mv.quiet() ==> reduction_s(c, n, mv, hist, i, nd) == 0,
        !c.features.log_lmr && n.in_check ==> reduction_s(c, n, mv, hist, i, nd) == 0,
        c.features.log_lmr && (i < 1 || n.ply == 0 && i < 3) ==> reduction_s(
            c,
            n,
            mv,
            hist,
            i,
            nd,
        ) == 0,
{
    reveal(reduction_s);
}

// ---------------------------------------------------------------------------
// Learning
// ---------------------------------------------------------------------------
/// A score teaches the correction only where the node is not in check, the score
/// is no mate and its move no capture, and where the bound it stands for says the
/// evaluation was wrong: too high where the score stayed below beta, too low where
/// a move raised it.
pub proof fn law_what_a_score_teaches(c: Setup, n: Node, best: int, best_move: Option<Move>)
    ensures
        teaches(c, n, best, best_move) ==> best != n.eval && c.features.corr_hist && !n.in_check
            && -MATE_IN_MAX < best < MATE_IN_MAX,
        best_move matches Some(m) && m.captures() ==> !teaches(c, n, best, best_move),
        best_move is None && best > n.eval ==> !teaches(c, n, best, best_move),
        best < n.eval && best >= n.beta ==> !teaches(c, n, best, best_move),
        c.features.corr_hist && !n.in_check && -MATE_IN_MAX < best < MATE_IN_MAX && (best_move
            matches Some(m) ==> !m.captures()) && best < n.eval && best < n.beta ==> teaches(
            c,
            n,
            best,
            best_move,
        ),
        c.features.corr_hist && !n.in_check && -MATE_IN_MAX < best < MATE_IN_MAX && (best_move
            matches Some(m) && !m.captures()) && best > n.eval ==> teaches(c, n, best, best_move),
{
}

/// At the root every move leaves behind how many nodes it took and its score;
/// elsewhere no move does.
pub proof fn law_root_keeps_count(
    c: Setup,
    p: Position,
    n: Node,
    r: Run,
    st: State,
    mv: Move,
    score: int,
    again: bool,
)
    ensures
        ({
            let x = settled(c, p, n, r, st, mv, score, again).st;
            &&& n.ply == 0 ==> x.effort == st.effort.push((mv, (st.nodes - r.st.nodes) as u64))
                && x.scores == st.scores.push((mv, score as i32))
            &&& n.ply > 0 ==> x.effort == st.effort && x.scores == st.scores
        }),
{
    reveal(settled);
    reveal(crate::tree::absorbed);
}

}
