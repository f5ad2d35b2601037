//! Iterative deepening: aspiration windows, the choice of a move, and how long
//! to go on.
use vstd::prelude::*;
use crate::board::{hash_s, Board};
use crate::clock::{
    allocate, budget_s, clock_says, law_budget_within_the_clock, moment, moment_read, time_since,
    MILLI,
};
use crate::moves::Move;
use crate::movegen::{generate_legal, legal, lemma_legal_playable};
use crate::negamax::{headed, listed, searched};
use crate::nnue::SCORE_CAP;
use crate::node::{Setup, State};
use crate::num::{abs1, idiv, imax, imin, lemma_tdiv_bound, max2, min2, tdiv};
use crate::params::{Features, Limits};
use crate::position::{after, playable, Position};
use crate::reftree::{lemma_ref_counts, ref_s};
use crate::score::{is_mate, mated, INF, MATE};
use crate::searcher::{
    at_ease, counted_on, flag_lowered, framed, halted, in_time, reading_due, ready, timed_out,
    undisturbed, unhurried, unpassed, weary, Searcher,
};
use crate::trail::TrailView;
use crate::tree::{lemma_negamax_counts, negamax_s};
use crate::tt::next_age;
use std::time::Instant;

verus! {

// ---------------------------------------------------------------------------
// Aspiration
// ---------------------------------------------------------------------------
/// The root searched with a window.
pub open spec fn root_s(c: Setup, st: State, p: Position, depth: int, alpha: int, beta: int) -> (
    State,
    int,
) {
    if c.features.ref_search {
        ref_s(c, st, p, depth, alpha, beta, 0, true, false, None)
    } else {
        negamax_s(c, st, p, depth, alpha, beta, 0, true, false, None)
    }
}

/// A window is not widened by more than this.
pub const STEP_CAP: i32 = 1_000_000_000;

/// A bound far from level is opened altogether.
pub open spec fn opened_low(alpha: int) -> int {
    if alpha < -1000 { -INF as int } else { alpha }
}

pub open spec fn opened_high(beta: int) -> int {
    if beta > 1000 { INF as int } else { beta }
}

/// The root searched again and again with a wider window, until the score falls
/// inside it or the window cannot be widened further.
pub open spec fn widening_s(
    c: Setup,
    st: State,
    p: Position,
    depth: int,
    alpha: int,
    beta: int,
    delta: int,
) -> (State, int)
    decreases 2 * STEP_CAP - delta,
    when 2 <= delta
{
    let a = opened_low(alpha);
    let b = opened_high(beta);
    let (s1, v) = root_s(c, st, p, depth, a, b);
    if (a < v && v < b) || delta > STEP_CAP {
        (s1, v)
    } else if v <= a {
        widening_s(
            c,
            s1,
            p,
            depth,
            max2(v - delta, -INF as int),
            tdiv(a + b, 2),
            delta + delta / 2,
        )
    } else {
        widening_s(c, s1, p, depth, a, min2(v + delta, INF as int), delta + delta / 2)
    }
}

/// Searching the root counts at least one node.
pub proof fn lemma_root_counts(
    c: Setup,
    st: State,
    p: Position,
    depth: int,
    alpha: int,
    beta: int,
)
    ensures
        root_s(c, st, p, depth, alpha, beta).0.nodes > st.nodes,
{
    if c.features.ref_search {
        lemma_ref_counts(c, st, p, depth, alpha, beta, 0, true, false, None);
    } else {
        lemma_negamax_counts(c, st, p, depth, alpha, beta, 0, true, false, None);
    }
}

/// Widening a window takes no node back.
pub proof fn lemma_widening_counts(
    c: Setup,
    st: State,
    p: Position,
    depth: int,
    alpha: int,
    beta: int,
    delta: int,
)
    requires
        2 <= delta,
    ensures
        st.nodes < root_s(
            c,
            st,
            p,
            depth,
            opened_low(alpha),
            opened_high(beta),
        ).0.nodes <= widening_s(c, st, p, depth, alpha, beta, delta).0.nodes,
    decreases 2 * STEP_CAP - delta,
{
    let a = opened_low(alpha);
    let b = opened_high(beta);
    lemma_root_counts(c, st, p, depth, a, b);
    let (s1, v) = root_s(c, st, p, depth, a, b);
    if (a < v && v < b) || delta > STEP_CAP {
    } else if v <= a {
        lemma_widening_counts(
            c,
            s1,
            p,
            depth,
            max2(v - delta, -INF as int),
            tdiv(a + b, 2),
            delta + delta / 2,
        );
    } else {
        lemma_widening_counts(
            c,
            s1,
            p,
            depth,
            a,
            min2(v + delta, INF as int),
            delta + delta / 2,
        );
    }
}

/// How wide the first window is: wider at low depth.
pub open spec fn first_step(c: Setup, depth: int) -> int {
    5 + tdiv(c.params.asp_delta * 8, max2(depth, 1))
}

/// The first window is around the last score, or open where that is a poor
/// guide.
pub open spec fn open_window(c: Setup, depth: int, prev: int) -> bool {
    depth <= c.params.asp_depth || mated(prev)
}

#[verifier::opaque]
pub open spec fn aspiration_s(c: Setup, st: State, p: Position, depth: int, prev: int) -> (
    State,
    int,
) {
    let delta = first_step(c, depth);
    if open_window(c, depth, prev) {
        widening_s(c, st, p, depth, -INF as int, INF as int, delta)
    } else {
        widening_s(c, st, p, depth, prev - delta, prev + delta, delta)
    }
}

// ---------------------------------------------------------------------------
// Choosing
// ---------------------------------------------------------------------------
/// Playing this move lands straight back on a position already seen.
pub open spec fn repeats(t: TrailView, p: Position, m: Move) -> bool {
    t.seen_lately(hash_s(after(p, m)))
}

/// The best of the first `n` root moves that is neither this one nor a
/// repetition, the last of equals.
pub open spec fn other_upto(
    scores: Seq<(Move, i32)>,
    t: TrailView,
    p: Position,
    b: Move,
    n: int,
) -> Option<(Move, i32)>
    decreases n,
{
    if n <= 0 {
        None
    } else {
        let o = other_upto(scores, t, p, b, n - 1);
        let (m, sc) = scores[n - 1];
        if m != b && !repeats(t, p, m) && (o matches Some((_, s)) ==> sc >= s) {
            Some((m, sc))
        } else {
            o
        }
    }
}

/// The move to play: a repetition is declined when something else is nearly as
/// good.
pub open spec fn chosen_s(c: Setup, st: State, p: Position, best: Option<Move>, score: int) -> Option<
    Move,
> {
    match best {
        Some(b) if c.params.contempt > 0 && repeats(st.trail, p, b) => match other_upto(
            st.scores,
            st.trail,
            p,
            b,
            st.scores.len() as int,
        ) {
            Some((m, sc)) if sc >= score - c.params.contempt => Some(m),
            _ => best,
        },
        _ => best,
    }
}

/// The first move of the best line, or the move there was before.
pub open spec fn headline(t: TrailView, before: Option<Move>) -> Option<Move> {
    if t.pv_len[0] > 0 { t.pv[0] } else { before }
}

/// Where a number of completed iterations leaves the search.
pub struct Deep {
    pub st: State,
    pub best: Option<Move>,
    pub score: int,
}

/// The state an iteration starts from.
pub open spec fn iteration_start(st: State) -> State {
    State { effort: Seq::empty(), scores: Seq::empty(), ..st }
}

/// `depth` completed iterations, each starting from what the one before it left.
pub open spec fn deepened(c: Setup, st: State, p: Position, depth: int) -> Deep
    decreases depth,
{
    if depth <= 0 {
        Deep { st, best: None, score: 0 }
    } else {
        let d = deepened(c, st, p, depth - 1);
        let (s, v) = aspiration_s(c, iteration_start(d.st), p, depth, d.score);
        Deep { st: s, best: chosen_s(c, s, p, headline(s.trail, d.best), v), score: v }
    }
}

/// The answer: the chosen move, or the first legal one rather than nothing.
pub open spec fn answer(best: Option<Move>, p: Position) -> Option<Move> {
    if best is Some {
        best
    } else if legal(p).len() > 0 {
        Some(legal(p)[0])
    } else {
        None
    }
}

/// The state a search starts from: a new generation, no node counted, and the
/// keys of the game alone.
pub open spec fn fresh_start(st: State, root_keys: int) -> State {
    State {
        tt: next_age(st.tt),
        nodes: 0,
        trail: TrailView { keys: st.trail.keys.take(root_keys), ..st.trail },
        ..st
    }
}

/// How deep a search may go.
pub open spec fn depth_limit(limits: Limits) -> int {
    match limits.depth {
        Some(d) => min2(d as int, 126),
        None => 126,
    }
}

// ---------------------------------------------------------------------------
// How long to go on
// ---------------------------------------------------------------------------
/// What the iterations so far say about how settled the search is.
#[derive(Clone, Copy)]
pub struct Mood {
    pub last_best: Option<Move>,
    /// How often the best move changed.
    pub changes: u32,
    /// Iterations since it last did.
    pub settled: u32,
    /// A running average of the score.
    pub average: i32,
}

impl Mood {
    pub open spec fn wf(self, depth: int) -> bool {
        &&& self.changes <= depth
        &&& self.settled <= depth
        &&& -SCORE_CAP <= self.average <= SCORE_CAP
    }
}

/// The mood after one more iteration.
pub open spec fn mood_s(m: Mood, depth: int, best: Option<Move>, score: int) -> Mood {
    let average = if depth == 1 { score } else { tdiv(score + 9 * m.average, 10) };
    if best != m.last_best {
        Mood {
            last_best: best,
            changes: (m.changes + 1) as u32,
            settled: 0,
            average: average as i32,
        }
    } else {
        Mood { settled: (m.settled + 1) as u32, average: average as i32, ..m }
    }
}

/// The mood before the first iteration.
pub open spec fn new_mood() -> Mood {
    Mood { last_best: None, changes: 0, settled: 0, average: 0 }
}

/// The mood after `depth` completed iterations.
pub open spec fn mood_after(c: Setup, st: State, p: Position, depth: int) -> Mood
    decreases depth,
{
    if depth <= 0 {
        new_mood()
    } else {
        let d = deepened(c, st, p, depth);
        mood_s(mood_after(c, st, p, depth - 1), depth, d.best, d.score)
    }
}

impl Mood {
    pub fn new() -> (r: Self)
        ensures
            r == new_mood(),
    {
        Mood { last_best: None, changes: 0, settled: 0, average: 0 }
    }

    /// Take one more iteration in.
    pub fn note(&mut self, depth: u32, best: Option<Move>, score: i32)
        requires
            1 <= depth <= 1000,
            old(self).wf(depth - 1),
            -SCORE_CAP <= score <= SCORE_CAP,
        ensures
            *final(self) == mood_s(*old(self), depth as int, best, score as int),
            final(self).wf(depth as int),
    {
        if depth == 1 {
            self.average = score;
        } else {
            self.average = idiv(score + 9 * self.average, 10);
        }
        if best != self.last_best {
            self.last_best = best;
            self.settled = 0;
            self.changes = self.changes + 1;
        } else {
            self.settled = self.settled + 1;
        }
    }
}

/// What the plan for a move is scaled by: which share of the nodes went to the
/// move that is meant to be played, how long that move has stood, how far the
/// score is falling, and how often the move changed.
#[derive(Clone, Copy)]
pub struct Pace {
    /// The plan, in nanoseconds.
    pub base: u128,
    /// Nodes spent on the move that is meant to be played.
    pub on_best: u64,
    /// Nodes spent on every root move; nothing where the share is not to count.
    pub spent: u128,
    pub settled: u32,
    pub drop: i32,
    pub changes: u32,
}

pub open spec fn spent_upto(effort: Seq<(Move, u64)>, n: int) -> int
    decreases n,
{
    if n <= 0 { 0 } else { spent_upto(effort, n - 1) + effort[n - 1].1 }
}

/// The nodes of the first root move of this name.
pub open spec fn nodes_on(effort: Seq<(Move, u64)>, best: Option<Move>, i: int) -> u64
    decreases effort.len() - i,
{
    if i >= effort.len() {
        0
    } else if Some(effort[i].0) == best {
        effort[i].1
    } else {
        nodes_on(effort, best, i + 1)
    }
}

pub open spec fn pace_s(
    f: Features,
    effort: Seq<(Move, u64)>,
    m: Mood,
    best: Option<Move>,
    score: int,
    base: u128,
) -> Pace {
    Pace {
        base,
        on_best: nodes_on(effort, best, 0),
        spent: if f.tm_node_effort {
            spent_upto(effort, effort.len() as int) as u128
        } else {
            0
        },
        settled: if f.tm_stability { m.settled } else { 0 },
        drop: if f.tm_stability { max2(m.average - score, 0) as i32 } else { 0 },
        changes: if f.tm_stability { m.changes } else { 0 },
    }
}

/// The moves among the first `n` of a line.
pub open spec fn line_moves(pv: Seq<Option<Move>>, n: int) -> Seq<Move>
    decreases n,
{
    if n <= 0 {
        Seq::empty()
    } else {
        match pv[n - 1] {
            Some(m) => line_moves(pv, n - 1).push(m),
            None => line_moves(pv, n - 1),
        }
    }
}

/// What an iteration has to say for itself.
pub struct Report {
    pub depth: u32,
    pub score: i32,
    pub nodes: u64,
    /// Milliseconds since the search began, never nothing.
    pub ms: u64,
    /// The best line.
    pub pv: Vec<Move>,
}

/// How a score is shown: moves to mate, or centipawns.
#[derive(Clone, Copy, PartialEq, Eq, Structural, Debug)]
pub enum Shown {
    Mate(i32),
    Cp(i32),
}

pub open spec fn shown_s(score: int) -> Shown {
    if mated(score) {
        let moves = tdiv(MATE - abs1(score) + 1, 2);
        Shown::Mate(if score > 0 { moves as i32 } else { (-moves) as i32 })
    } else {
        Shown::Cp(tdiv(score, 2) as i32)
    }
}

/// Two internal units to the centipawn; a mate is counted in moves.
pub fn shown(score: i32) -> (r: Shown)
    requires
        -SCORE_CAP <= score <= SCORE_CAP,
    ensures
        r == shown_s(score as int),
{
    proof {
        lemma_tdiv_bound(MATE - abs1(score as int) + 1, 2);
    }
    if is_mate(score) {
        let plies: i32 = MATE - (if score >= 0 {
            score
        } else {
            -score
        });
        let moves: i32 = idiv(plies + 1, 2);
        Shown::Mate(
            if score > 0 {
                moves
            } else {
                -moves
            },
        )
    } else {
        Shown::Cp(idiv(score, 2))
    }
}

/// Milliseconds, at least one so that they can be divided by.
pub open spec fn millis_s(ns: u128) -> int {
    max2(1, min2((ns / MILLI) as int, u64::MAX as int))
}

pub fn whole_millis(ns: u128) -> (r: u64)
    ensures
        r == millis_s(ns),
{
    let gone: u128 = ns / MILLI;
    if gone == 0 {
        1
    } else if gone > 0xffff_ffff_ffff_ffff {
        0xffff_ffff_ffff_ffff
    } else {
        gone as u64
    }
}

/// Nodes per second.
pub fn nps(nodes: u64, ms: u64) -> (r: u128)
    requires
        ms > 0,
    ensures
        r == (nodes * 1000) / ms as int,
{
    nodes as u128 * 1000 / ms as u128
}

/// The move of a mate found `ply` plies from the root is shown as the number of
/// full moves it takes.
pub proof fn law_mates_shown_in_moves(ply: int)
    requires
        1 <= ply <= 128,
    ensures
        shown_s(MATE - ply) == Shown::Mate(((ply + 1) / 2) as i32),
        shown_s(-(MATE - ply)) == Shown::Mate((-((ply + 1) / 2)) as i32),
{
}

impl Searcher {
    fn sum_effort(&self) -> (r: u128)
        ensures
            r == spent_upto(self@.effort, self@.effort.len() as int),
    {
        let n: usize = self.root_effort.len();
        let mut s: u128 = 0;
        let mut i: usize = 0;
        while i < n
            invariant
                i <= n,
                n == self@.effort.len(),
                s == spent_upto(self@.effort, i as int),
                s <= i * 0xffff_ffff_ffff_ffff,
            decreases n - i,
        {
            assert(i * 0xffff_ffff_ffff_ffff <= 0xffff_ffff_ffff_fffe * 0xffff_ffff_ffff_ffff)
                by (nonlinear_arith)
                requires
                    i <= 0xffff_ffff_ffff_fffe,
            ;
            s = s + self.root_effort[i].1 as u128;
            i = i + 1;
        }
        s
    }

    fn effort_on(&self, best: Option<Move>) -> (r: u64)
        ensures
            r == nodes_on(self@.effort, best, 0),
    {
        let n: usize = self.root_effort.len();
        let mut i: usize = 0;
        while i < n
            invariant
                i <= n,
                n == self@.effort.len(),
                nodes_on(self@.effort, best, 0) == nodes_on(self@.effort, best, i as int),
            decreases n - i,
        {
            if Some(self.root_effort[i].0) == best {
                return self.root_effort[i].1;
            }
            i = i + 1;
        }
        0
    }

    /// What the plan is to be scaled by.
    pub fn pace(&self, m: &Mood, best: Option<Move>, score: i32, base: u128) -> (r: Pace)
        requires
            -SCORE_CAP <= m.average <= SCORE_CAP,
            -SCORE_CAP <= score <= SCORE_CAP,
        ensures
            r == pace_s(self.features, self@.effort, *m, best, score as int, base),
    {
        let on: bool = self.features.tm_stability;
        Pace {
            base,
            on_best: self.effort_on(best),
            spent: if self.features.tm_node_effort {
                self.sum_effort()
            } else {
                0
            },
            settled: if on {
                m.settled
            } else {
                0
            },
            drop: if on {
                imax(m.average - score, 0)
            } else {
                0
            },
            changes: if on {
                m.changes
            } else {
                0
            },
        }
    }

    /// The best line of the root.
    pub fn best_line(&self) -> (r: Vec<Move>)
        requires
            self.wf(),
        ensures
            r@ == line_moves(self@.trail.pv, self@.trail.pv_len[0] as int),
    {
        let n: usize = self.trail.pv_len[0];
        let mut out: Vec<Move> = Vec::new();
        let mut i: usize = 0;
        while i < n
            invariant
                i <= n,
                n == self@.trail.pv_len[0],
                n <= 128,
                self.wf(),
                out@ == line_moves(self@.trail.pv, i as int),
            decreases n - i,
        {
            match self.trail.pv[i] {
                Some(m) => {
                    out.push(m);
                },
                None => {},
            }
            i = i + 1;
        }
        out
    }
}

// ---------------------------------------------------------------------------
// The search of a position
// ---------------------------------------------------------------------------
/// The last search of the root that led here, if it noted a second move, looked
/// at the clock after it and found less than twice the plan gone. The staged
/// search leaves that to the wall.
pub open spec fn ended_at_ease(
    c: Setup,
    p: Position,
    depth: int,
    start: &Instant,
    soft: int,
    end: (State, int),
) -> bool {
    c.features.ref_search || exists|st: State, alpha: int, beta: int| #[trigger]
        root_s(c, st, p, depth, alpha, beta) == end && (st.scores.len() + 1 < end.0.scores.len()
            ==> at_ease(start, soft))
}

impl Searcher {
    fn search_root(&mut self, board: &mut Board, depth: i32, alpha: i32, beta: i32) -> (r: i32)
        requires
            ready(&*old(self), &*old(board), alpha as int, beta as int, 0),
            1 <= depth <= 126,
        ensures
            *final(board) == *old(board),
            searched(&*old(self), &*final(self), old(board).pos, 0),
            -SCORE_CAP <= r <= SCORE_CAP,
            !old(self).features.ref_search ==> unhurried(&*old(self), &*final(self)),
            counted_on(&*old(self), &*final(self)),
            ({
                let full = root_s(
                    old(self).setup(*old(board)),
                    old(self)@,
                    old(board).pos,
                    depth as int,
                    alpha as int,
                    beta as int,
                );
                &&& halted(
                    &*old(self),
                    &*final(self),
                    full.0.nodes,
                    legal(old(board).pos).len() > 1 && weary(
                        &old(self).start,
                        old(self).soft as int,
                    ),
                )
                &&& !final(self).stopped ==> (final(self)@, r as int) == full
            }),
    {
        if self.features.ref_search {
            self.negamax_ref(board, depth, alpha, beta, 0, true, false, None)
        } else {
            self.negamax(board, depth, alpha, beta, 0, true, false, None)
        }
    }

    /// Search the root with a window around the last score, widening on a
    /// failure rather than starting wide every time.
    pub fn aspiration(&mut self, board: &mut Board, depth: i32, prev: i32) -> (r: i32)
        requires
            old(self).wf(),
            old(board).wf(old(self).ev.weights()),
            1 <= depth <= 126,
            -SCORE_CAP <= prev <= SCORE_CAP,
        ensures
            *final(board) == *old(board),
            searched(&*old(self), &*final(self), old(board).pos, 0),
            -SCORE_CAP <= r <= SCORE_CAP,
            counted_on(&*old(self), &*final(self)),
            ({
                let full = aspiration_s(
                    old(self).setup(*old(board)),
                    old(self)@,
                    old(board).pos,
                    depth as int,
                    prev as int,
                );
                &&& halted(
                    &*old(self),
                    &*final(self),
                    full.0.nodes,
                    legal(old(board).pos).len() > 1 && weary(
                        &old(self).start,
                        old(self).soft as int,
                    ),
                )
                &&& !final(self).stopped ==> ended_at_ease(
                    old(self).setup(*old(board)),
                    old(board).pos,
                    depth as int,
                    &old(self).start,
                    old(self).soft as int,
                    full,
                )
                &&& !final(self).stopped ==> (final(self)@, r as int) == full
            }),
    {
        let ghost c = self.setup(*board);
        let ghost p = board.pos;
        proof {
            reveal(aspiration_s);
            lemma_tdiv_bound(self.params.asp_delta * 8, depth as int);
        }
        let mut delta: i32 = 5 + idiv(self.params.asp_delta * 8, imax(depth, 1));
        let mut alpha: i32 = -INF;
        let mut beta: i32 = INF;
        if !(depth <= self.params.asp_depth || is_mate(prev)) {
            alpha = prev - delta;
            beta = prev + delta;
        }
        let ghost whole = aspiration_s(c, self@, p, depth as int, prev as int);
        loop
            invariant
                1 <= depth <= 126,
                5 <= delta <= 3 * (STEP_CAP / 2),
                -INF <= alpha < beta <= INF,
                *board == *old(board),
                p == board.pos,
                c == old(self).setup(*old(board)),
                c == self.setup(*board),
                board.wf(self.ev.weights()),
                self.wf(),
                framed(&*old(self), &*self),
                undisturbed(old(self)@.trail, self@.trail, 0),
                listed(old(self)@.scores, p) ==> listed(self@.scores, p),
                !old(self).stopped ==> !self.stopped,
                !self.stopped ==> whole == widening_s(
                    c,
                    self@,
                    p,
                    depth as int,
                    alpha as int,
                    beta as int,
                    delta as int,
                ),
                whole == aspiration_s(c, old(self)@, p, depth as int, prev as int),
            decreases 2 * STEP_CAP - delta,
        {
            proof {
                lemma_widening_counts(
                    c,
                    self@,
                    p,
                    depth as int,
                    alpha as int,
                    beta as int,
                    delta as int,
                );
            }
            if alpha < -1000 {
                alpha = -INF;
            }
            if beta > 1000 {
                beta = INF;
            }
            let ghost before = self@;
            let score: i32 = self.search_root(board, depth, alpha, beta);
            if self.stopped {
                return score;
            }
            assert(root_s(c, before, p, depth as int, alpha as int, beta as int) == (
                self@,
                score as int,
            ));
            if (alpha < score && score < beta) || delta > STEP_CAP {
                return score;
            }
            if score <= alpha {
                // Failing low moves the upper bound as well, or the next
                // attempt fails low again at once.
                beta = idiv(alpha + beta, 2);
                alpha = imax(score - delta, -INF);
            } else {
                beta = imin(score + delta, INF);
            }
            delta = delta + delta / 2;
        }
    }

    fn other(&self, p: &Position, b: Move) -> (r: Option<(Move, i32)>)
        requires
            self.wf(),
            listed(self@.scores, *p),
        ensures
            r == other_upto(
                self@.scores,
                self@.trail,
                *p,
                b,
                self@.scores.len() as int,
            ),
            r matches Some((m, sc)) ==> legal(*p).contains(m),
    {
        let n: usize = self.root_scores.len();
        let mut best: Option<(Move, i32)> = None;
        let mut i: usize = 0;
        while i < n
            invariant
                i <= n,
                n == self@.scores.len(),
                self.wf(),
                listed(self@.scores, *p),
                best == other_upto(self@.scores, self@.trail, *p, b, i as int),
                best matches Some((m, sc)) ==> legal(*p).contains(m),
            decreases n - i,
        {
            let (m, sc): (Move, i32) = self.root_scores[i];
            proof {
                assert(legal(*p).contains(self@.scores[i as int].0));
                lemma_listed_playable(*p, m);
            }
            if m != b && !self.repeats_at_once(p, &m) {
                let better: bool = match best {
                    Some((_, s)) => sc >= s,
                    None => true,
                };
                if better {
                    best = Some((m, sc));
                }
            }
            i = i + 1;
        }
        best
    }

    /// Decline a repetition when something else is nearly as good.
    pub fn pick_root(&self, p: &Position, best: Option<Move>, score: i32) -> (r: Option<Move>)
        requires
            self.wf(),
            listed(self@.scores, *p),
            best matches Some(m) ==> legal(*p).contains(m),
            -SCORE_CAP <= score <= SCORE_CAP,
        ensures
            forall|c: Setup|
                c.params == self.params ==> r == #[trigger] chosen_s(
                    c,
                    self@,
                    *p,
                    best,
                    score as int,
                ),
            r matches Some(m) ==> legal(*p).contains(m),
            best is Some ==> r is Some,
    {
        let b: Move = match best {
            Some(b) => b,
            None => {
                return None;
            },
        };
        proof {
            lemma_listed_playable(*p, b);
        }
        if self.params.contempt > 0 && self.repeats_at_once(p, &b) {
            match self.other(p, b) {
                Some((m, sc)) => {
                    if sc >= score - self.params.contempt {
                        return Some(m);
                    }
                },
                None => {},
            }
        }
        best
    }
}

proof fn lemma_listed_playable(p: Position, m: Move)
    requires
        legal(p).contains(m),
    ensures
        playable(p, m),
{
    lemma_legal_playable(p);
    let k = choose|k: int| 0 <= k < legal(p).len() && legal(p)[k] == m;
    assert(playable(p, legal(p)[k]));
}

/// What a search never changes.
pub open spec fn same_options(a: &Searcher, b: &Searcher) -> bool {
    &&& b.params == a.params
    &&& b.features == a.features
    &&& b.lmr@ == a.lmr@
    &&& b.ev.weights() == a.ev.weights()
    &&& b.move_overhead == a.move_overhead
    &&& b.root_keys == a.root_keys
    &&& b.stop == a.stop
}

/// Two readings of the clock, before and after an iteration, left room for one
/// twice as long.
pub open spec fn room(start: &Instant, soft: int) -> bool {
    exists|began: u128, elapsed: u128|
        #[trigger] clock_says(start, began) && #[trigger] clock_says(start, elapsed) && elapsed + 2
            * max2(elapsed - began, 0) < soft
}

/// Two readings of the clock, before and after an iteration, left no room for
/// one twice as long.
pub open spec fn no_room(start: &Instant, soft: int) -> bool {
    exists|began: u128, elapsed: u128|
        #[trigger] clock_says(start, began) && #[trigger] clock_says(start, elapsed) && elapsed + 2
            * max2(elapsed - began, 0) >= soft
}

/// What the plan is scaled by after `k` completed iterations.
pub open spec fn pace_after(c: Setup, st: State, p: Position, base: u128, k: int) -> Pace {
    let d = deepened(c, st, p, k);
    pace_s(c.features, d.st.effort, mood_after(c, st, p, k), d.best, d.score, base)
}

/// The plan after `k` completed iterations: what `scale` made of it, as far as
/// the wall allows; before the first, the plan that was made for the move.
pub open spec fn planned<S: Fn(Pace) -> u128>(
    scale: &S,
    c: Setup,
    st: State,
    p: Position,
    base: u128,
    hard: int,
    k: int,
    soft: int,
) -> bool {
    if k <= 0 {
        soft == base
    } else {
        exists|x: u128| #[trigger]
            call_ensures(*scale, (pace_after(c, st, p, base, k),), x) && soft == min2(x as int, hard)
    }
}

/// After `k` completed iterations the plan left room for one more.
pub open spec fn went_on<S: Fn(Pace) -> u128>(
    scale: &S,
    c: Setup,
    st: State,
    p: Position,
    base: u128,
    hard: int,
    start: &Instant,
    k: int,
) -> bool {
    exists|soft: int| #[trigger]
        planned(scale, c, st, p, base, hard, k, soft) && room(start, soft)
}

/// Iteration `k` came to its end well within its plan, as far as the root looked.
pub open spec fn kept_pace<S: Fn(Pace) -> u128>(
    scale: &S,
    c: Setup,
    st: State,
    p: Position,
    base: u128,
    hard: int,
    start: &Instant,
    k: int,
) -> bool {
    let d = deepened(c, st, p, k);
    exists|soft: int| #[trigger]
        planned(scale, c, st, p, base, hard, k - 1, soft) && ended_at_ease(
            c,
            p,
            k,
            start,
            soft,
            (d.st, d.score),
        )
}

/// `report` was told how iteration `k` came out.
pub open spec fn reported<G: Fn(Report)>(report: &G, start: &Instant, d: Deep, k: int) -> bool {
    exists|x: Report| #[trigger] call_ensures(*report, (x,), ()) && tells(x, start, d, k)
}

/// This is a report on iteration `k`, at a time read off the clock.
pub open spec fn tells(x: Report, start: &Instant, d: Deep, k: int) -> bool {
    &&& x.depth == k
    &&& x.score == d.score
    &&& x.nodes == d.st.nodes
    &&& x.pv@ == line_moves(d.st.trail.pv, d.st.trail.pv_len[0] as int)
    &&& exists|elapsed: u128| #[trigger] clock_says(start, elapsed) && x.ms == millis_s(elapsed)
}

/// On the way to `full` nodes the clock and the flag were looked at, and one of
/// them said that the search is over; or the counter came to its end.
pub open spec fn run_out(s: &Searcher, full: int) -> bool {
    reading_due(0, full) && (s.nodes == u64::MAX || reading_due(0, s.nodes as int) && timed_out(
        &s.start,
        &*s.stop,
        s.hard as int,
    ))
}

/// The node limit is reached after `d` iterations.
pub open spec fn nodes_spent(c: Setup, st: State, p: Position, limits: Limits, d: int) -> bool {
    limits.nodes matches Some(n) && deepened(c, st, p, d).st.nodes >= n
}

/// The last of `d` iterations after which the plan was looked at again: the
/// node limit ends the search before that.
pub open spec fn planned_after(
    c: Setup,
    st: State,
    p: Position,
    limits: Limits,
    d: int,
) -> int {
    if nodes_spent(c, st, p, limits, d) { d - 1 } else { d }
}

/// The deepest iteration whose result counts was reached, and the node limit
/// was not passed before it.
pub open spec fn within_limits(c: Setup, st: State, p: Position, limits: Limits, d: int) -> bool {
    &&& 0 <= d <= depth_limit(limits)
    &&& limits.nodes matches Some(n) ==> forall|k: int|
        1 <= k < d ==> (#[trigger] deepened(c, st, p, k)).st.nodes < n
}

impl Searcher {
    /// Make ready for a search: the clock, a new generation of the table, and
    /// the keys of the game alone.
    fn begin(&mut self, board: &Board, limits: &Limits)
        requires
            old(self).wf(),
            board.wf(old(self).ev.weights()),
        ensures
            final(self).wf(),
            same_options(&*old(self), &*final(self)),
            final(self)@ == fresh_start(old(self)@, old(self).root_keys as int),
            !final(self).stopped,
            moment_read(final(self).start),
            flag_lowered(&*old(self).stop),
            ({
                let (soft, hard) = budget_s(
                    old(self).params,
                    old(self).move_overhead as int,
                    *limits,
                    board.pos,
                );
                &&& final(self).soft == soft * MILLI
                &&& final(self).hard == hard * MILLI
            }),
    {
        let (soft, hard): (u64, u64) = allocate(
            &self.params,
            self.move_overhead,
            limits,
            &board.pos,
        );
        self.start = moment();
        self.soft = soft as u128 * MILLI;
        self.hard = hard as u128 * MILLI;
        self.nodes = 0;
        self.stopped = false;
        self.lower_flag();
        self.tt.increase_gen();
        let n: usize = self.root_keys;
        self.trail.keys.truncate(n);
        assert(self@ =~= fresh_start(old(self)@, old(self).root_keys as int));
    }

    /// One iteration: the score, and the move to play after it.
    fn iterate(
        &mut self,
        board: &mut Board,
        depth: i32,
        prev: i32,
        best: Option<Move>,
    ) -> (r: (i32, Option<Move>))
        requires
            old(self).wf(),
            old(board).wf(old(self).ev.weights()),
            1 <= depth <= 126,
            -SCORE_CAP <= prev <= SCORE_CAP,
            best matches Some(m) ==> legal(old(board).pos).contains(m),
        ensures
            *final(board) == *old(board),
            final(self).wf(),
            framed(&*old(self), &*final(self)),
            undisturbed(old(self)@.trail, final(self)@.trail, 0),
            -SCORE_CAP <= r.0 <= SCORE_CAP,
            r.1 matches Some(m) ==> legal(old(board).pos).contains(m),
            counted_on(&*old(self), &*final(self)),
            halted(
                &*old(self),
                &*final(self),
                aspiration_s(
                    old(self).setup(*old(board)),
                    iteration_start(old(self)@),
                    old(board).pos,
                    depth as int,
                    prev as int,
                ).0.nodes,
                legal(old(board).pos).len() > 1 && weary(
                    &old(self).start,
                    old(self).soft as int,
                ),
            ),
            !final(self).stopped ==> ({
                let c = old(self).setup(*old(board));
                let p = old(board).pos;
                let (s, v) = aspiration_s(
                    c,
                    iteration_start(old(self)@),
                    p,
                    depth as int,
                    prev as int,
                );
                &&& ended_at_ease(
                    c,
                    p,
                    depth as int,
                    &old(self).start,
                    old(self).soft as int,
                    (s, v),
                )
                &&& final(self)@ == s
                &&& r.0 == v
                &&& r.1 == chosen_s(c, s, p, headline(s.trail, best), v)
            }),
    {
        let ghost c = self.setup(*board);
        let ghost p = board.pos;
        self.root_effort.clear();
        self.root_scores.clear();
        assert(self@ =~= iteration_start(old(self)@));
        assert(listed(self@.scores, p));
        let score: i32 = self.aspiration(board, depth, prev);
        let head: Option<Move> = if self.trail.pv_len[0] > 0 {
            self.trail.pv[0]
        } else {
            best
        };
        assert(headed(self@.trail, p, 0));
        let next: Option<Move> = self.pick_root(&board.pos, head, score);
        assert(c.params == self.params);
        (score, next)
    }

    /// Search a position: deeper and deeper until the limits are reached, the
    /// plan is spent or somebody says stop.
    ///
    /// `scale` turns the plan for the move into what this search has earned of
    /// it, and `report` is told about every iteration.
    pub fn go<S: Fn(Pace) -> u128, G: Fn(Report)>(
        &mut self,
        board: &mut Board,
        limits: &Limits,
        scale: &S,
        report: &G,
    ) -> (r: Option<Move>)
        requires
            old(self).wf(),
            old(board).wf(old(self).ev.weights()),
            forall|x: Pace| call_requires(*scale, (x,)),
            forall|x: Report| call_requires(*report, (x,)),
        ensures
            *final(board) == *old(board),
            final(self).wf(),
            same_options(&*old(self), &*final(self)),
            final(self)@.trail.keys == old(self)@.trail.keys.take(old(self).root_keys as int),
            final(self)@.trail.pre_moves == old(self)@.trail.pre_moves,
            unpassed(old(self)@.trail, final(self)@.trail, 0),
            final(self).hard == MILLI * budget_s(
                old(self).params,
                old(self).move_overhead as int,
                *limits,
                old(board).pos,
            ).1,
            final(self).soft <= final(self).hard,
            moment_read(final(self).start),
            flag_lowered(&*old(self).stop),
            reading_due(0, final(self).nodes as int) && !final(self).stopped ==> in_time(
                &final(self).start,
                &*final(self).stop,
                final(self).hard as int,
            ),
            r is Some == (legal(old(board).pos).len() > 0),
            r matches Some(m) ==> legal(old(board).pos).contains(m),
            ({
                let c = old(self).setup(*old(board));
                let p = old(board).pos;
                let st = fresh_start(old(self)@, old(self).root_keys as int);
                let d = final(self).completed as int;
                let base = (MILLI * budget_s(
                    old(self).params,
                    old(self).move_overhead as int,
                    *limits,
                    p,
                ).0) as u128;
                &&& within_limits(c, st, p, *limits, d)
                &&& d >= 1 ==> planned(
                    scale,
                    c,
                    st,
                    p,
                    base,
                    final(self).hard as int,
                    planned_after(c, st, p, *limits, d),
                    final(self).soft as int,
                )
                &&& forall|k: int|
                    1 <= k < d || 1 <= k == d && final(self).stopped ==> #[trigger] went_on(
                        scale,
                        c,
                        st,
                        p,
                        base,
                        final(self).hard as int,
                        &final(self).start,
                        k,
                    )
                &&& forall|k: int|
                    1 <= k <= d ==> #[trigger] kept_pace(
                        scale,
                        c,
                        st,
                        p,
                        base,
                        final(self).hard as int,
                        &final(self).start,
                        k,
                    )
                &&& forall|k: int|
                    1 <= k <= d ==> reported(
                        report,
                        &final(self).start,
                        #[trigger] deepened(c, st, p, k),
                        k,
                    )
                &&& d >= 1 || depth_limit(*limits) == 0 ==> r == answer(
                    deepened(c, st, p, d).best,
                    p,
                )
                &&& d == 0 && depth_limit(*limits) > 0 ==> final(self).stopped
                &&& final(self).stopped ==> (legal(p).len() > 1 && weary(
                    &final(self).start,
                    if d == 0 {
                        base as int
                    } else {
                        final(self).soft as int
                    },
                )) || run_out(&*final(self), deepened(c, st, p, d + 1).st.nodes)
                &&& !final(self).stopped && d < depth_limit(*limits) ==> nodes_spent(
                    c,
                    st,
                    p,
                    *limits,
                    d,
                ) || no_room(&final(self).start, final(self).soft as int)
                &&& final(self).nodes > 0 || depth_limit(*limits) == 0
                &&& !final(self).stopped ==> final(self)@ == deepened(c, st, p, d).st
            }),
    {
        let ghost c = self.setup(*board);
        let ghost p = board.pos;
        let ghost st = fresh_start(self@, self.root_keys as int);
        let max_depth: u32 = match limits.depth {
            Some(d) => if d < 126 {
                d
            } else {
                126
            },
            None => 126,
        };
        self.begin(board, limits);
        proof {
            law_budget_within_the_clock(
                self.params,
                self.move_overhead as int,
                *limits,
                board.pos,
            );
        }
        let ghost wall = self.hard;
        let base_soft: u128 = self.soft;
        let mut best: Option<Move> = None;
        let mut best_score: i32 = 0;
        let mut mood = Mood::new();
        let mut done: u32 = 0;
        let mut depth: u32 = 1;
        let mut over: bool = false;
        while depth <= max_depth && !over
            invariant
                1 <= depth <= max_depth + 1,
                max_depth == depth_limit(*limits),
                max_depth <= 126,
                done <= depth - 1,
                depth == 1 ==> best is None && !self.stopped,
                over ==> depth >= 2,
                mood.wf(depth - 1),
                -SCORE_CAP <= best_score <= SCORE_CAP,
                best matches Some(m) ==> legal(p).contains(m),
                *board == *old(board),
                p == board.pos,
                c == old(self).setup(*old(board)),
                c == self.setup(*board),
                st == fresh_start(old(self)@, old(self).root_keys as int),
                self.wf(),
                board.wf(self.ev.weights()),
                same_options(&*old(self), &*self),
                self@.trail.keys == st.trail.keys,
                self@.trail.pre_moves == old(self)@.trail.pre_moves,
                unpassed(old(self)@.trail, self@.trail, 0),
                depth > 1 || over ==> self.nodes > 0,
                depth == 1 ==> self.soft == base_soft && self.nodes == 0,
                moment_read(self.start),
                flag_lowered(&*old(self).stop),
                reading_due(0, self.nodes as int) && !self.stopped ==> in_time(
                    &self.start,
                    &*self.stop,
                    self.hard as int,
                ),
                !over && !self.stopped ==> mood == mood_after(c, st, p, done as int),
                done >= 1 ==> planned(
                    scale,
                    c,
                    st,
                    p,
                    base_soft,
                    wall as int,
                    planned_after(c, st, p, *limits, done as int),
                    self.soft as int,
                ),
                forall|k: int|
                    1 <= k < done || 1 <= k == done && (!over || self.stopped) ==> #[trigger] went_on(
                        scale,
                        c,
                        st,
                        p,
                        base_soft,
                        wall as int,
                        &self.start,
                        k,
                    ),
                forall|k: int|
                    1 <= k <= done ==> #[trigger] kept_pace(
                        scale,
                        c,
                        st,
                        p,
                        base_soft,
                        wall as int,
                        &self.start,
                        k,
                    ),
                forall|k: int|
                    1 <= k <= done ==> reported(
                        report,
                        &self.start,
                        #[trigger] deepened(c, st, p, k),
                        k,
                    ),
                over && !self.stopped ==> nodes_spent(c, st, p, *limits, done as int) || no_room(
                    &self.start,
                    self.soft as int,
                ),
                self.stopped ==> (legal(p).len() > 1 && weary(
                    &self.start,
                    if done == 0 {
                        base_soft as int
                    } else {
                        self.soft as int
                    },
                )) || run_out(&*self, deepened(c, st, p, done + 1).st.nodes),
                self.hard == wall,
                self.soft <= self.hard,
                forall|x: Pace| call_requires(*scale, (x,)),
                forall|x: Report| call_requires(*report, (x,)),
                within_limits(c, st, p, *limits, done as int),
                done >= 1 ==> best == deepened(c, st, p, done as int).best,
                !self.stopped ==> done == depth - 1 && best_score == deepened(
                    c,
                    st,
                    p,
                    done as int,
                ).score && self@ == deepened(c, st, p, done as int).st && best == deepened(
                    c,
                    st,
                    p,
                    done as int,
                ).best,
                self.stopped && !over ==> done == 0,
                depth >= 2 && done == 0 ==> self.stopped,
                !over && depth >= 2 ==> (limits.nodes matches Some(n) ==> self.stopped || deepened(
                    c,
                    st,
                    p,
                    done as int,
                ).st.nodes < n),
            decreases max_depth + 1 - depth, (if over { 0int } else { 1 }),
        {
            let iter_start: u128 = time_since(&self.start);
            let (score, next): (i32, Option<Move>) = self.iterate(
                board,
                depth as i32,
                best_score,
                best,
            );
            // An aborted iteration has searched only part of the move list:
            // keep the previous depth.
            if self.stopped && depth > 1 {
                over = true;
            } else {
                if !self.stopped {
                    assert(planned(
                        scale,
                        c,
                        st,
                        p,
                        base_soft,
                        wall as int,
                        done as int,
                        self.soft as int,
                    ));
                    done = depth;
                }
                best_score = score;
                best = next;
                let told: Report = self.report_of(depth, score);
                let ghost x = told;
                report(told);
                assert(call_ensures(*report, (x,), ()));
                proof {
                    if !self.stopped {
                        assert(tells(x, &self.start, deepened(c, st, p, done as int), done as int));
                    }
                }
                let spent_nodes: bool = match limits.nodes {
                    Some(n) => self.nodes >= n,
                    None => false,
                };
                if spent_nodes {
                    over = true;
                } else {
                    mood.note(depth, best, score);
                    let pace: Pace = self.pace(&mood, best, score, base_soft);
                    let scaled: u128 = scale(pace);
                    proof {
                        if !self.stopped {
                            assert(mood == mood_after(c, st, p, done as int));
                            assert(pace == pace_after(c, st, p, base_soft, done as int));
                        }
                        assert(call_ensures(*scale, (pace,), scaled));
                    }
                    // The scaling moves the plan, never the wall.
                    self.soft = if scaled <= self.hard {
                        scaled
                    } else {
                        self.hard
                    };
                    // Is there room for another iteration, which costs about
                    // twice the one just finished?
                    let elapsed: u128 = time_since(&self.start);
                    let last: u128 = if elapsed > iter_start {
                        elapsed - iter_start
                    } else {
                        0
                    };
                    assert(clock_says(&self.start, iter_start) && clock_says(&self.start, elapsed));
                    if !has_room(elapsed, last, self.soft) {
                        over = true;
                    }
                    proof {
                        if !self.stopped {
                            assert(planned(
                                scale,
                                c,
                                st,
                                p,
                                base_soft,
                                wall as int,
                                done as int,
                                self.soft as int,
                            ));
                            assert(!over ==> room(&self.start, self.soft as int));
                        }
                    }
                }
                depth = depth + 1;
            }
        }
        self.completed = done;
        match best {
            Some(m) => Some(m),
            None => {
                let all: Vec<Move> = generate_legal(&board.pos);
                if all.len() > 0 {
                    assert(legal(p).contains(legal(p)[0]));
                    Some(all[0])
                } else {
                    None
                }
            },
        }
    }

    fn report_of(&self, depth: u32, score: i32) -> (r: Report)
        requires
            self.wf(),
        ensures
            r.depth == depth,
            r.score == score,
            r.nodes == self.nodes,
            exists|elapsed: u128| #[trigger]
                clock_says(&self.start, elapsed) && r.ms == millis_s(elapsed),
            r.pv@ == line_moves(self@.trail.pv, self@.trail.pv_len[0] as int),
    {
        let elapsed: u128 = time_since(&self.start);
        let ms: u64 = whole_millis(elapsed);
        assert(clock_says(&self.start, elapsed));
        Report { depth, score, nodes: self.nodes, ms, pv: self.best_line() }
    }
}

/// There is room for an iteration twice as long as the last.
pub fn has_room(elapsed: u128, last: u128, soft: u128) -> (r: bool)
    ensures
        r == (elapsed + 2 * last < soft),
{
    elapsed < soft && last < (soft - elapsed) / 2 + (soft - elapsed) % 2
}

/// Without contempt the best move is played whatever it repeats; with it, a
/// move other than the best is played only where the best repeats, and then it
/// is one that does not, and is scored within the contempt of the best.
pub proof fn law_repetition_declined(
    c: Setup,
    st: State,
    p: Position,
    best: Option<Move>,
    score: int,
)
    ensures
        ({
            let r = chosen_s(c, st, p, best, score);
            &&& c.params.contempt <= 0 ==> r == best
            &&& r != best ==> {
                &&& best matches Some(b) && repeats(st.trail, p, b)
                &&& r matches Some(m) && !repeats(st.trail, p, m) && exists|i: int|
                    0 <= i < st.scores.len() && (#[trigger] st.scores[i]).0 == m && st.scores[i].1
                        >= score - c.params.contempt
            }
        }),
{
    if let Some(b) = best {
        lemma_other(st.scores, st.trail, p, b, st.scores.len() as int);
    }
}

proof fn lemma_other(scores: Seq<(Move, i32)>, t: TrailView, p: Position, b: Move, n: int)
    requires
        0 <= n <= scores.len(),
    ensures
        other_upto(scores, t, p, b, n) matches Some((m, sc)) ==> !repeats(t, p, m) && m != b
            && exists|i: int|
            0 <= i < n && (#[trigger] scores[i]).0 == m && scores[i].1 == sc,
        forall|i: int|
            0 <= i < n && (#[trigger] scores[i]).0 != b && !repeats(t, p, scores[i].0) ==> (
            other_upto(scores, t, p, b, n) matches Some((m, sc)) && sc >= scores[i].1),
    decreases n,
{
    if n > 0 {
        lemma_other(scores, t, p, b, n - 1);
        assert(scores[n - 1] == scores[n - 1]);
    }
}

/// A window that is searched is never empty, and widening it keeps it so.
pub proof fn law_window_never_empty(alpha: int, beta: int, v: int, delta: int)
    requires
        -INF <= alpha < beta <= INF,
        delta >= 2,
    ensures
        ({
            let a = opened_low(alpha);
            let b = opened_high(beta);
            &&& -INF <= a < b <= INF
            &&& v <= a ==> -INF <= max2(v - delta, -INF as int) < tdiv(a + b, 2) <= INF
            &&& v >= b ==> a < min2(v + delta, INF as int) <= INF
        }),
{
}

/// Where the first window is open and the score lies inside it, one search of the
/// root settles the iteration.
pub proof fn law_open_window_is_one_search(
    c: Setup,
    st: State,
    p: Position,
    depth: int,
    prev: int,
)
    requires
        c.params.wf(),
        1 <= depth,
        open_window(c, depth, prev),
        -INF < root_s(c, st, p, depth, -INF as int, INF as int).1 < INF,
    ensures
        aspiration_s(c, st, p, depth, prev) == root_s(c, st, p, depth, -INF as int, INF as int),
{
    reveal(aspiration_s);
    lemma_tdiv_bound(c.params.asp_delta * 8, max2(depth, 1));
}

}
