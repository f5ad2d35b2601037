//! What holds of deepening, of the choice of a move and of the path to a node.
use vstd::prelude::*;
use crate::deepen::{
    answer, aspiration_s, chosen_s, depth_limit, first_step, fresh_start, headline, line_moves,
    millis_s, mood_s, nodes_on, open_window, opened_high, opened_low, other_upto, pace_s, repeats,
    root_s, shown_s, spent_upto, widening_s, Mood, Shown, STEP_CAP,
};
use crate::lore::{main_at, slots_ok};
use crate::movegen::legal;
use crate::moves::Move;
use crate::node::{cut_credit, plausible, raw_s, Setup, State};
use crate::num::{lemma_tdiv_bound, max2, min2, tdiv};
use crate::params::{Features, Limits};
use crate::position::Position;
use crate::score::{INF, MATE_IN_MAX};
use crate::trail::{latest, TrailView};

verus! {

// ---------------------------------------------------------------------------
// Aspiration
// ---------------------------------------------------------------------------
/// This is what one search of the root with this window found.
pub open spec fn found(
    c: Setup,
    p: Position,
    depth: int,
    from: State,
    low: int,
    high: int,
    r: (State, int),
) -> bool {
    root_s(c, from, p, depth, low, high) == r
}

/// Every search of the root gives a score that is one.
pub open spec fn scores_are_scores(c: Setup, p: Position, depth: int) -> bool {
    forall|s: State, low: int, high: int|
        -INF < (#[trigger] root_s(c, s, p, depth, low, high)).1 < INF
}

/// How far a window may have been widened, by which of its ends are open.
spec fn leeway(alpha: int, beta: int) -> int {
    let low = opened_low(alpha) == -INF;
    let high = opened_high(beta) == INF;
    if low && high {
        STEP_CAP as int
    } else if low {
        STEP_CAP / 2
    } else if high {
        STEP_CAP / 4
    } else {
        STEP_CAP / 8
    }
}

proof fn lemma_widening_settles(
    c: Setup,
    st: State,
    p: Position,
    depth: int,
    alpha: int,
    beta: int,
    delta: int,
)
    requires
        2 <= delta <= leeway(alpha, beta),
        scores_are_scores(c, p, depth),
    ensures
        ({
            let r = widening_s(c, st, p, depth, alpha, beta, delta);
            exists|from: State, low: int, high: int|
                #[trigger] found(c, p, depth, from, low, high, r) && low < r.1 < high
        }),
    decreases 2 * STEP_CAP - delta,
{
    let a = opened_low(alpha);
    let b = opened_high(beta);
    let (s1, v) = root_s(c, st, p, depth, a, b);
    let r = widening_s(c, st, p, depth, alpha, beta, delta);
    let next = delta + delta / 2;
    if a < v && v < b {
        assert(r == (s1, v));
        assert(found(c, p, depth, st, a, b, r));
    } else if v <= a {
        let low = max2(v - delta, -INF as int);
        assert(r == widening_s(c, s1, p, depth, low, tdiv(a + b, 2), next));
        lemma_widening_settles(c, s1, p, depth, low, tdiv(a + b, 2), next);
    } else {
        let high = min2(v + delta, INF as int);
        assert(r == widening_s(c, s1, p, depth, a, high, next));
        lemma_widening_settles(c, s1, p, depth, a, high, next);
    }
}

/// What an iteration answers is what one search of the root found, and lies
/// inside the window of that search: never a bound.
pub proof fn law_answer_was_found(c: Setup, st: State, p: Position, depth: int, prev: int)
    requires
        c.params.wf(),
        1 <= depth,
        scores_are_scores(c, p, depth),
    ensures
        ({
            let r = aspiration_s(c, st, p, depth, prev);
            exists|from: State, low: int, high: int|
                #[trigger] found(c, p, depth, from, low, high, r) && low < r.1 < high
        }),
{
    reveal(aspiration_s);
    law_first_window(c, depth, prev);
    lemma_tdiv_bound(c.params.asp_delta * 8, depth);
    let d = first_step(c, depth);
    let r = aspiration_s(c, st, p, depth, prev);
    if open_window(c, depth, prev) {
        assert(r == widening_s(c, st, p, depth, -INF as int, INF as int, d));
        lemma_widening_settles(c, st, p, depth, -INF as int, INF as int, d);
    } else {
        assert(r == widening_s(c, st, p, depth, prev - d, prev + d, d));
        lemma_widening_settles(c, st, p, depth, prev - d, prev + d, d);
    }
}

/// The first window holds the last score with some room on either side, less
/// room the deeper the search; it is open at low depth and after a mate.
pub proof fn law_first_window(c: Setup, depth: int, prev: int)
    requires
        c.params.wf(),
        1 <= depth,
    ensures
        5 <= first_step(c, depth),
        first_step(c, depth + 1) <= first_step(c, depth),
        first_step(c, 1) == 5 + 8 * c.params.asp_delta,
        first_step(c, 8) == 5 + c.params.asp_delta,
        -INF < prev < INF ==> opened_low(prev - first_step(c, depth)) < prev < opened_high(
            prev + first_step(c, depth),
        ),
        depth <= c.params.asp_depth ==> open_window(c, depth, prev),
        prev >= MATE_IN_MAX || prev <= -MATE_IN_MAX ==> open_window(c, depth, prev),
        depth > c.params.asp_depth && -MATE_IN_MAX < prev < MATE_IN_MAX ==> !open_window(
            c,
            depth,
            prev,
        ),
{
    let x = c.params.asp_delta * 8;
    lemma_tdiv_bound(x, depth);
    vstd::arithmetic::div_mod::lemma_div_is_ordered_by_denominator(x, depth, depth + 1);
    assert(tdiv(x, 8) == c.params.asp_delta);
    assert(tdiv(x, 1) == x);
}

/// A score inside the window settles the iteration; one at or below its low end
/// has the root searched again with a lower low end and nothing above the middle;
/// one at or above its high end with the same low end and a higher high end.
pub proof fn law_window_follows_the_score(
    c: Setup,
    st: State,
    p: Position,
    depth: int,
    alpha: int,
    beta: int,
    delta: int,
)
    requires
        2 <= delta <= STEP_CAP,
        -1000 <= alpha < beta <= 1000,
    ensures
        ({
            let (s1, v) = root_s(c, st, p, depth, alpha, beta);
            let r = widening_s(c, st, p, depth, alpha, beta, delta);
            &&& alpha < v < beta ==> r == (s1, v)
            &&& v <= alpha && v - delta >= -INF ==> exists|high: int, next: int|
                r == #[trigger] widening_s(c, s1, p, depth, v - delta, high, next) && alpha - 1
                    <= high <= beta && next > delta
            &&& v >= beta && v + delta <= INF ==> exists|next: int|
                r == #[trigger] widening_s(c, s1, p, depth, alpha, v + delta, next) && next > delta
        }),
{
    let (s1, v) = root_s(c, st, p, depth, alpha, beta);
    let r = widening_s(c, st, p, depth, alpha, beta, delta);
    let next = delta + delta / 2;
    if v <= alpha && v - delta >= -INF {
        assert(r == widening_s(c, s1, p, depth, v - delta, tdiv(alpha + beta, 2), next));
    }
    if v >= beta && v + delta <= INF {
        assert(r == widening_s(c, s1, p, depth, alpha, v + delta, next));
    }
}

// ---------------------------------------------------------------------------
// The choice of a move
// ---------------------------------------------------------------------------
/// With contempt, a best move that repeats is declined wherever another root move
/// does not repeat and is scored within the contempt of it; and of such moves none
/// is scored higher than the one that is played.
pub proof fn law_repetition_gives_way(
    c: Setup,
    st: State,
    p: Position,
    b: Move,
    score: int,
    i: int,
)
    requires
        c.params.contempt > 0,
        repeats(st.trail, p, b),
        0 <= i < st.scores.len(),
        st.scores[i].0 != b,
        !repeats(st.trail, p, st.scores[i].0),
        st.scores[i].1 >= score - c.params.contempt,
    ensures
        ({
            let r = chosen_s(c, st, p, Some(b), score);
            &&& r is Some && r != Some(b)
            &&& exists|j: int|
                0 <= j < st.scores.len() && Some((#[trigger] st.scores[j]).0) == r && st.scores[j].1
                    >= st.scores[i].1
        }),
{
    lemma_best_other(st.scores, st.trail, p, b, st.scores.len() as int, i);
}

proof fn lemma_best_other(
    scores: Seq<(Move, i32)>,
    t: TrailView,
    p: Position,
    b: Move,
    n: int,
    i: int,
)
    requires
        0 <= i < n <= scores.len(),
        scores[i].0 != b,
        !repeats(t, p, scores[i].0),
    ensures
        other_upto(scores, t, p, b, n) matches Some((m, sc)) && m != b && sc >= scores[i].1
            && exists|j: int|
            0 <= j < n && (#[trigger] scores[j]).0 == m && scores[j].1 == sc,
    decreases n,
{
    if i < n - 1 {
        lemma_best_other(scores, t, p, b, n - 1, i);
    } else {
        lemma_any_other(scores, t, p, b, n - 1);
    }
    assert(scores[n - 1] == scores[n - 1]);
}

proof fn lemma_any_other(scores: Seq<(Move, i32)>, t: TrailView, p: Position, b: Move, n: int)
    requires
        0 <= n <= scores.len(),
    ensures
        other_upto(scores, t, p, b, n) matches Some((m, sc)) ==> m != b && exists|j: int|
            0 <= j < n && (#[trigger] scores[j]).0 == m && scores[j].1 == sc,
    decreases n,
{
    if n > 0 {
        lemma_any_other(scores, t, p, b, n - 1);
        assert(scores[n - 1] == scores[n - 1]);
    }
}

/// The best move is played as it is where it does not repeat; the move named is
/// the first of the best line, or the one before where there is no line; and a
/// move is always named where there is one.
pub proof fn law_best_move_is_played(
    c: Setup,
    st: State,
    p: Position,
    before: Option<Move>,
    best: Option<Move>,
    score: int,
)
    ensures
        best matches Some(b) && !repeats(st.trail, p, b) ==> chosen_s(c, st, p, best, score) == best,
        best is None ==> chosen_s(c, st, p, best, score) is None,
        st.trail.pv_len[0] > 0 ==> headline(st.trail, before) == st.trail.pv[0],
        st.trail.pv_len[0] == 0 ==> headline(st.trail, before) == before,
        best is Some ==> answer(best, p) == best,
        best is None && legal(p).len() > 0 ==> (answer(best, p) matches Some(m)
            && legal(p).contains(m)),
        best is None && legal(p).len() == 0 ==> answer(best, p) is None,
{
    if legal(p).len() > 0 {
        assert(legal(p).contains(legal(p)[0]));
    }
}

/// A search goes no deeper than it is asked to, and never beyond a hundred and
/// twenty-six plies.
pub proof fn law_how_deep(limits: Limits)
    ensures
        depth_limit(limits) <= 126,
        limits.depth matches Some(d) ==> depth_limit(limits) <= d && (d <= 126 ==> depth_limit(
            limits,
        ) == d),
        limits.depth is None ==> depth_limit(limits) == 126,
{
}

/// A new search keeps the game's keys, what the tables know, and nothing of the
/// count of nodes.
pub proof fn law_fresh_start(st: State, root_keys: int, hash: u64)
    requires
        0 <= root_keys <= st.trail.keys.len(),
        st.tt.slots.len() > 0,
    ensures
        ({
            let s = fresh_start(st, root_keys);
            &&& s.nodes == 0
            &&& s.trail.keys.len() == root_keys
            &&& forall|i: int| 0 <= i < root_keys ==> #[trigger] s.trail.keys[i] == st.trail.keys[i]
            &&& crate::tt::probe_s(s.tt, hash) == crate::tt::probe_s(st.tt, hash)
            &&& s.tt.age != st.tt.age
            &&& s.lore == st.lore
        }),
{
}

// ---------------------------------------------------------------------------
// How settled the search is
// ---------------------------------------------------------------------------
/// A best move that stands counts one more iteration; one that changes counts a
/// change and starts over. The average moves a tenth of the way to the score and
/// never past it; after the first iteration it is the score.
pub proof fn law_mood_follows(m: Mood, depth: int, best: Option<Move>, score: int)
    requires
        m.wf(depth - 1),
        1 <= depth <= 1000,
        -67_108_864 <= score <= 67_108_864,
    ensures
        ({
            let n = mood_s(m, depth, best, score);
            &&& n.last_best == best
            &&& best == m.last_best ==> n.settled == m.settled + 1 && n.changes == m.changes
            &&& best != m.last_best ==> n.settled == 0 && n.changes == m.changes + 1
            &&& depth == 1 ==> n.average == score
            &&& depth > 1 && score >= m.average ==> m.average - 1 <= n.average <= score
                || m.average < 0
            &&& depth > 1 ==> -10 < 10 * n.average - (score + 9 * m.average) < 10
        }),
{
}

proof fn lemma_share(effort: Seq<(Move, u64)>, best: Option<Move>, i: int, n: int)
    requires
        0 <= i <= n == effort.len(),
    ensures
        spent_upto(effort, n) >= spent_upto(effort, i) + nodes_on(effort, best, i),
        0 <= spent_upto(effort, i),
    decreases n - i,
{
    lemma_spent(effort, i, n);
    if i < n {
        lemma_share(effort, best, i + 1, n);
        lemma_spent(effort, i + 1, n);
    }
}

proof fn lemma_spent(effort: Seq<(Move, u64)>, i: int, n: int)
    requires
        0 <= i <= n <= effort.len(),
    ensures
        0 <= spent_upto(effort, i) <= spent_upto(effort, n),
    decreases n,
{
    if i < n {
        lemma_spent(effort, i, n - 1);
    } else if n > 0 {
        lemma_spent(effort, i - 1, n - 1);
    }
}

/// What the time goes by: the share of the nodes that went to the best move, no
/// more than all of them; how long it has stood and how often it changed; and how
/// far the score fell below its average, nothing where it did not. Each counts for
/// nothing where its switch is off.
pub proof fn law_pace_tells(
    f: Features,
    effort: Seq<(Move, u64)>,
    m: Mood,
    best: Option<Move>,
    score: int,
    base: u128,
)
    requires
        spent_upto(effort, effort.len() as int) <= u128::MAX,
        -67_108_864 <= score <= 67_108_864,
        -67_108_864 <= m.average <= 67_108_864,
    ensures
        ({
            let x = pace_s(f, effort, m, best, score, base);
            &&& x.base == base
            &&& f.tm_node_effort ==> x.on_best <= x.spent && x.spent == spent_upto(
                effort,
                effort.len() as int,
            )
            &&& !f.tm_node_effort ==> x.spent == 0
            &&& f.tm_stability ==> x.settled == m.settled && x.changes == m.changes
            &&& f.tm_stability && score >= m.average ==> x.drop == 0
            &&& f.tm_stability && score < m.average ==> x.drop == m.average - score
            &&& !f.tm_stability ==> x.settled == 0 && x.changes == 0 && x.drop == 0
        }),
{
    lemma_share(effort, best, 0, effort.len() as int);
}

/// The nodes of a move are those of the first entry under its name.
pub proof fn law_nodes_of_a_move(effort: Seq<(Move, u64)>, best: Option<Move>, i: int, j: int)
    requires
        0 <= i <= j < effort.len(),
        Some(effort[j].0) == best,
        forall|k: int| i <= k < j ==> Some((#[trigger] effort[k]).0) != best,
    ensures
        nodes_on(effort, best, i) == effort[j].1,
    decreases j - i,
{
    if i < j {
        assert(Some(effort[i].0) != best);
        law_nodes_of_a_move(effort, best, i + 1, j);
    }
}

// ---------------------------------------------------------------------------
// What is shown
// ---------------------------------------------------------------------------
/// A score that is no mate is shown as half of it, towards nothing, with the sign
/// it has; and what is seen from the other side is shown with the other sign.
pub proof fn law_scores_shown_in_halves(score: int)
    requires
        -MATE_IN_MAX < score < MATE_IN_MAX,
    ensures
        shown_s(score) matches Shown::Cp(v) && (score >= 0 ==> 2 * v <= score <= 2 * v + 1) && (
        score <= 0 ==> 2 * v - 1 <= score <= 2 * v),
        shown_s(score) matches Shown::Cp(v) ==> shown_s(-score) == Shown::Cp((-v) as i32),
{
}

/// Time is shown in whole milliseconds, at least one.
pub proof fn law_time_shown(ns: u128)
    requires
        ns < 1_000_000_000_000_000_000,
    ensures
        millis_s(ns) >= 1,
        ns >= 1_000_000 ==> millis_s(ns) * 1_000_000 <= ns < (millis_s(ns) + 1) * 1_000_000,
        ns < 1_000_000 ==> millis_s(ns) == 1,
{
}

/// A best line is shown move by move, as far as there are moves in it.
pub proof fn law_line_is_shown(pv: Seq<Option<Move>>, n: int)
    requires
        0 <= n <= pv.len(),
    ensures
        line_moves(pv, n).len() <= n,
        (forall|i: int| 0 <= i < n ==> #[trigger] pv[i] is Some) ==> line_moves(pv, n).len() == n
            && forall|i: int| 0 <= i < n ==> Some(#[trigger] line_moves(pv, n)[i]) == pv[i],
    decreases n,
{
    if n > 0 {
        law_line_is_shown(pv, n - 1);
        if forall|i: int| 0 <= i < n ==> #[trigger] pv[i] is Some {
            assert(pv[n - 1] is Some);
            assert forall|i: int| 0 <= i < n - 1 implies #[trigger] pv[i] is Some by {}
        }
    }
}

// ---------------------------------------------------------------------------
// The path to a node
// ---------------------------------------------------------------------------
/// Nothing repeats straight after a move that cannot be taken back, nothing
/// older than that move counts, and no position with the other side to move does;
/// the fifty move rule ends the game at a hundred plies and not before.
pub proof fn law_when_a_position_is_drawn(t: TrailView, hash: u64, halfmove: int)
    ensures
        halfmove >= 100 ==> t.drawn(hash, halfmove),
        halfmove < 2 ==> !t.drawn(hash, halfmove),
        t.keys.len() < 3 && halfmove < 100 ==> !t.drawn(hash, halfmove),
        halfmove < 100 && (forall|j: int|
            2 <= j <= halfmove && j < t.keys.len() && j % 2 == 0
                ==> #[trigger] t.keys[t.keys.len() - 1 - j] != hash) ==> !t.drawn(hash, halfmove),
        t.drawn(hash, halfmove) ==> t.drawn(hash, halfmove + 1),
{
    if t.drawn(hash, halfmove) && halfmove < 99 {
        let j = choose|j: int|
            2 <= j <= halfmove && j < t.keys.len() && j % 2 == 0
                && #[trigger] t.keys[t.keys.len() - 1 - j] == hash;
        assert(t.keys[t.keys.len() - 1 - j] == hash);
    }
}

/// A position on the path is one that was seen lately, sixty-four back at most.
pub proof fn law_seen_lately(t: TrailView, hash: u64, back: int)
    requires
        0 <= back < t.keys.len(),
    ensures
        t.with_key(hash).seen_lately(hash),
        back < 64 && t.keys[t.keys.len() - 1 - back] == hash ==> t.seen_lately(hash),
        (forall|j: int|
            0 <= j < 64 && j < t.keys.len() ==> #[trigger] t.keys[t.keys.len() - 1 - j] != hash)
            ==> !t.seen_lately(hash),
{
    let u = t.with_key(hash);
    assert(u.keys[u.keys.len() - 1 - 0] == hash);
}

/// The continuation tables look at the moves one, two and four plies back, by
/// piece and destination; above the root at the moves of the game.
pub proof fn law_continuations_go_back(t: TrailView, ply: int)
    requires
        t.wf(),
        0 <= ply < 128,
    ensures
        ply >= 1 ==> (t.played[ply - 1] matches Some((pc, to)) ==> t.slots(ply)[0] == Some(
            (pc * 64 + to) as usize,
        )),
        ply >= 2 ==> (t.played[ply - 2] matches Some((pc, to)) ==> t.slots(ply)[1] == Some(
            (pc * 64 + to) as usize,
        )),
        ply >= 4 ==> (t.played[ply - 4] matches Some((pc, to)) ==> t.slots(ply)[2] == Some(
            (pc * 64 + to) as usize,
        )),
        ply == 0 ==> (t.pre_moves[0] matches Some(m) ==> t.slots(ply)[0] == Some(
            ((m.from % 6) * 64 + m.to) as usize,
        )),
        ply == 0 ==> (t.pre_moves[1] matches Some(m) ==> t.slots(ply)[1] == Some(
            ((m.from % 6) * 64 + m.to) as usize,
        )),
        ply == 0 ==> (t.pre_moves[3] matches Some(m) ==> t.slots(ply)[2] == Some(
            ((m.from % 6) * 64 + m.to) as usize,
        )),
        slots_ok(t.slots(ply)),
{
}

/// The last moves of the game are kept latest first, six of them.
pub proof fn law_latest_first(moves: Seq<Move>, i: int)
    requires
        0 <= i < 6,
    ensures
        latest(moves).len() == 6,
        i < moves.len() ==> latest(moves)[i] == Some(moves[moves.len() - 1 - i]),
        i >= moves.len() ==> latest(moves)[i] is None,
{
}

// ---------------------------------------------------------------------------
// What the table leaves behind
// ---------------------------------------------------------------------------
/// An evaluation in the table is used as it is; otherwise the position is
/// evaluated and the evaluation kept for the next time.
pub proof fn law_evaluated_once(
    net: Option<crate::nnue::Weights>,
    fade: bool,
    tt: crate::tt::Table,
    p: Position,
)
    requires
        tt.slots.len() > 0,
        ({
            let v = crate::score::eval_s(net, p, fade);
            -32768 < v <= 32767
        }),
    ensures
        ({
            let e = crate::tt::probe_s(tt, crate::board::hash_s(p));
            let (after, v) = raw_s(net, fade, tt, p, e);
            let again = crate::tt::probe_s(after, crate::board::hash_s(p));
            &&& (e matches Some(x) && x.static_eval != -32768) ==> after == tt
            &&& e is None ==> v == crate::score::eval_s(net, p, fade)
            &&& again is Some ==> raw_s(net, fade, after, p, again) == (after, v)
        }),
{
    reveal(crate::tt::store_eval_s);
}

/// A stored move that ends a node is credited on the way out where it is quiet
/// and could be played; a capture, or a move of another position, teaches nothing.
pub proof fn law_stored_move_is_credited(
    st: State,
    p: Position,
    mv: Move,
    depth: int,
    ply: int,
)
    requires
        st.lore.wf(),
        st.trail.wf(),
        mv.wf(),
        0 <= ply < 128,
        1 <= depth,
    ensures
        ({
            let next = cut_credit(st.lore, st.trail, p, Some(mv), depth, ply);
            let at = main_at(p.us(), mv.from as int, mv.to as int);
            &&& !mv.quiet() || !plausible(p, mv) ==> next == st.lore
            &&& mv.quiet() && plausible(p, mv) && st.lore.history[at] < 15_000
                ==> next.history[at] > st.lore.history[at]
            &&& mv.quiet() && plausible(p, mv) ==> next.killers[ply * 3] == Some(mv)
                || next.killers[ply * 3 + 1] == Some(mv) || next.killers[ply * 3 + 2] == Some(mv)
        }),
{
    if mv.quiet() && plausible(p, mv) {
        law_continuations_go_back(st.trail, ply);
        let bonus = crate::score::hist_bonus_s(depth);
        reveal(crate::lore::credited);
        let at = main_at(p.us(), mv.from as int, mv.to as int);
        crate::score::law_history_saturates(st.lore.history[at] as int, bonus, 15_000);
        crate::lore_laws::law_every_bonus_is_heard(st.lore.history[at] as int, bonus, 15_000);
    }
}

}
