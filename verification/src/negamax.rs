//! The principal variation search.
use vstd::prelude::*;
use crate::board::{hash_s, Board};
use crate::clock::{clock_says, time_since};
use crate::moves::{all_wf, Move};
use crate::movegen::{generate_legal, legal, lemma_legal_count, lemma_legal_playable};
use crate::nnue::SCORE_CAP;
use crate::node::{cut_credit, gate_s, table_cut_s, weighed, Node, Setup, State, NO_EVAL};
use crate::num::{b2i, iabs, iclamp, idiv, imax, imin, int_of, lemma_tdiv_bound, max2, umin};
use crate::position::{after, after_null, playable, Position};
use crate::quiesce::{bound_of, eval_of, is_answer, move_of, sharpen};
use crate::rank::{score_moves, Ranked, RankedView};
use crate::score::{
    capt_bonus, debug_eval, has_pieces, hist_bonus, ilog2i, is_mate, mate_score, score_from_tt,
    score_to_tt, INF, MATE_IN_MAX, MAX_PLY,
};
use crate::searcher::{
    at_ease, counted_on, depth_ok, framed, halted, ready, undisturbed, unhurried, unpassed, weary,
    Searcher,
};
use crate::see::see_ge;
use crate::trail::{lemma_same_above, lemma_without_line, TrailView};
use crate::tree::{
    absorbed, again_credited, child_depth, child_s, cut_lore, finished, interior_s,
    lemma_child_counts, lemma_entered, lemma_interior, lemma_interior_counts, lemma_loop,
    lemma_loop_counts, lemma_moves, lemma_moves_counts, lemma_negamax, lemma_negamax_counts,
    lemma_prune_counts, lemma_settled_counts, lemma_tried, loop_nodes, loop_s, moves_s, entered_s,
    negamax_s, node_of, null_reduction, null_s, null_tries, open_node, probcut_s, prune_s,
    quiet_verdict, razors, reduction_s, rfp_s, root_noted, settled, shallow_s, singular_s,
    singular_tries, start_run, stepped, table_reduction, tried_s, Outcome, Run, Singular, Verdict,
};
use crate::tt::{Bound, TtEntry, TT_EVAL_NONE};

verus! {

/// A best line, where there is one, starts with a legal move.
pub open spec fn headed(t: TrailView, p: Position, ply: int) -> bool {
    t.pv_len[ply] > 0 ==> (t.pv[ply * 128] matches Some(m) && legal(p).contains(m))
}

/// Every root move noted is legal.
pub open spec fn listed(scores: Seq<(Move, i32)>, p: Position) -> bool {
    forall|i: int| 0 <= i < scores.len() ==> legal(p).contains((#[trigger] scores[i]).0)
}

/// What every search call leaves behind, cut short or not: sound tables, an
/// undisturbed trail, and a best line that can be played.
pub open spec fn searched(a: &Searcher, b: &Searcher, p: Position, ply: int) -> bool {
    &&& framed(a, b)
    &&& b.wf()
    &&& undisturbed(a@.trail, b@.trail, ply)
    &&& headed(b@.trail, p, ply)
    &&& ply > 0 ==> b@.effort == a@.effort && b@.scores == a@.scores
    &&& ply == 0 && listed(a@.scores, p) ==> listed(b@.scores, p)
}

/// A node with its evaluations in range.
pub open spec fn sane(n: Node) -> bool {
    &&& 0 < n.depth
    &&& depth_ok(n.depth as int, n.ply as int)
    &&& n.ply < 127
    &&& -SCORE_CAP <= n.beta <= SCORE_CAP
    &&& -SCORE_CAP <= n.raw <= SCORE_CAP
    &&& -SCORE_CAP <= n.eval <= SCORE_CAP
    &&& -SCORE_CAP <= n.sharp <= SCORE_CAP
    &&& n.entry matches Some(e) ==> e.wf()
}

// ---------------------------------------------------------------------------
// Decisions that look at nothing but numbers
// ---------------------------------------------------------------------------
impl Searcher {
    fn rfp(&self, Ghost(c): Ghost<Setup>, n: &Node) -> (r: Option<i32>)
        requires
            sane(*n),
            self.params.wf(),
            c.params == self.params,
            c.features == self.features,
        ensures
            r is Some == rfp_s(c, *n) is Some,
            r matches Some(v) ==> rfp_s(c, *n) == Some(v as int) && -SCORE_CAP <= v <= SCORE_CAP,
    {
        assert(0 <= self.params.rfp_margin * n.depth <= 300 * 1000) by (nonlinear_arith)
            requires
                0 <= self.params.rfp_margin <= 300,
                0 <= n.depth <= 1000,
        ;
        assert(0 <= self.params.rfp_improving * b2i(n.improving) <= 300);
        let margin: i32 = self.params.rfp_margin * n.depth - self.params.rfp_improving * int_of(
            n.improving,
        );
        if n.depth < self.params.rfp_depth && n.sharp - margin >= n.beta && iabs(n.sharp)
            < MATE_IN_MAX {
            if self.features.rfp_damp {
                proof {
                    lemma_tdiv_bound(n.sharp - n.beta, 3);
                }
                Some(n.beta + idiv(n.sharp - n.beta, 3))
            } else {
                Some(n.sharp)
            }
        } else {
            None
        }
    }

    fn can_razor(&self, Ghost(c): Ghost<Setup>, n: &Node, alpha: i32) -> (r: bool)
        requires
            sane(*n),
            self.params.wf(),
            c.params == self.params,
            c.features == self.features,
            -SCORE_CAP <= alpha <= SCORE_CAP,
        ensures
            r == razors(c, *n, alpha as int),
    {
        assert(0 <= self.params.razor_margin * n.depth <= 900 * 1000) by (nonlinear_arith)
            requires
                0 <= self.params.razor_margin <= 900,
                0 <= n.depth <= 1000,
        ;
        self.features.razoring && n.depth <= self.params.razor_depth && iabs(alpha) < 2000 && n.eval
            + self.params.razor_margin * n.depth <= alpha
    }

    fn can_pass(&self, Ghost(c): Ghost<Setup>, p: &Position, n: &Node) -> (r: bool)
        requires
            sane(*n),
            self.wf(),
            c.params == self.params,
            c.features == self.features,
        ensures
            r == null_tries(c, self@, *p, *n),
    {
        (!self.features.nmp_cut_node || n.cut_node) && n.depth >= 3 && n.sharp >= n.beta && n.sharp
            >= n.eval && n.eval >= n.beta - 20 * n.depth - 40 * int_of(n.improving) + 100
            && has_pieces(p, p.side) && !self.trail.just_passed(n.ply)
    }

    fn null_reduce(&self, Ghost(c): Ghost<Setup>, n: &Node) -> (r: i32)
        requires
            sane(*n),
            self.params.wf(),
            c.params == self.params,
            n.sharp >= n.beta,
        ensures
            r == null_reduction(c, *n),
            0 <= r <= 20,
    {
        proof {
            lemma_tdiv_bound(n.sharp - n.beta, 200);
        }
        self.params.nmp_base + imin(idiv(n.sharp - n.beta, 200), self.params.nmp_div)
    }

    fn probcut(&self, Ghost(c): Ghost<Setup>, n: &Node) -> (r: Option<i32>)
        requires
            sane(*n),
            self.params.wf(),
            c.params == self.params,
            c.features == self.features,
        ensures
            r is Some == probcut_s(c, *n) is Some,
            r matches Some(v) ==> probcut_s(c, *n) == Some(v as int) && -SCORE_CAP <= v
                <= SCORE_CAP,
    {
        if !(self.features.probcut && !n.pv_node && !n.in_check && n.excluded.is_none()) {
            return None;
        }
        match n.entry {
            Some(e) => {
                let floor: bool = match e.bound {
                    Bound::Lower => true,
                    Bound::Exact => true,
                    _ => false,
                };
                if floor && e.depth >= n.depth - 2 && iabs(n.beta) < MATE_IN_MAX {
                    let ts: i32 = score_from_tt(e.score, n.ply);
                    if !is_mate(ts) && ts >= n.beta + self.params.probcut_margin {
                        return Some(ts);
                    }
                }
                None
            },
            None => None,
        }
    }

    fn quiet_passes(
        &self,
        Ghost(c): Ghost<Setup>,
        p: &Position,
        n: &Node,
        alpha: i32,
        mv: &Move,
        hist: i32,
        i: usize,
    ) -> (r: Verdict)
        requires
            sane(*n),
            self.params.wf(),
            c.params == self.params,
            c.features == self.features,
            mv.wf(),
            -135_000 <= hist <= 135_000,
        ensures
            r == quiet_verdict(c, *p, *n, alpha as int, *mv, hist as int, i as int),
    {
        let d: i32 = n.depth;
        let pr = &self.params;
        let ghost dd = d * d;
        assert(0 <= d * d <= 1000 * 1000) by (nonlinear_arith)
            requires
                0 <= d <= 1000,
        ;
        assert(0 <= pr.fut_slope * d <= 300 * 1000) by (nonlinear_arith)
            requires
                0 <= pr.fut_slope <= 300,
                0 <= d <= 1000,
        ;
        assert(-2000 * 1_000_000 <= -pr.hist_prune * dd <= 0) by (nonlinear_arith)
            requires
                0 <= pr.hist_prune <= 2000,
                0 <= dd <= 1_000_000,
        ;
        assert(-40 * 1_001_000 <= -pr.see_prune_quiet * (d + dd) <= 0) by (nonlinear_arith)
            requires
                0 <= pr.see_prune_quiet <= 40,
                0 <= d <= 1000,
                0 <= dd <= 1_000_000,
        ;
        let full: i32 = pr.lmp_base + d * d;
        let count: i32 = if !self.features.lmp_improving || n.improving {
            full
        } else {
            full / 2
        };
        if d <= pr.lmp_depth && i >= count as usize {
            return Verdict::Break;
        }
        let hist_term: i32 = idiv(hist, pr.fut_hist_div);
        proof {
            lemma_tdiv_bound(hist as int, pr.fut_hist_div as int);
        }
        if d <= pr.fut_depth && n.eval + pr.fut_base + pr.fut_slope * d + hist_term <= alpha {
            return Verdict::Break;
        }
        if self.features.history_prune && d <= 4 && hist < -pr.hist_prune * (d * d) {
            return Verdict::Skip;
        }
        if d <= 8 && !see_ge(p, mv, -pr.see_prune_quiet * (d + d * d)) {
            return Verdict::Skip;
        }
        Verdict::Search
    }

    /// Late move pruning, futility, history pruning and static exchange.
    fn shallow(
        &self,
        Ghost(c): Ghost<Setup>,
        p: &Position,
        n: &Node,
        best: i32,
        alpha: i32,
        mv: &Move,
        hist: i32,
        i: usize,
    ) -> (r: Verdict)
        requires
            sane(*n),
            self.params.wf(),
            c.params == self.params,
            c.features == self.features,
            mv.wf(),
            -135_000 <= hist <= 135_000,
        ensures
            r == shallow_s(
                c,
                *p,
                *n,
                best as int,
                alpha as int,
                *mv,
                hist as int,
                i as int,
            ),
    {
        proof {
            reveal(shallow_s);
        }
        if n.ply > 0 && !n.pv_node && !n.in_check && best > -MATE_IN_MAX && has_pieces(p, p.side) {
            if mv.is_quiet() {
                return self.quiet_passes(Ghost(c), p, n, alpha, mv, hist, i);
            }
            assert(-250 * 1000 <= -self.params.see_prune * n.depth <= 0) by (nonlinear_arith)
                requires
                    0 <= self.params.see_prune <= 250,
                    0 <= n.depth <= 1000,
            ;
            if n.depth <= 8 && !see_ge(p, mv, -self.params.see_prune * n.depth) {
                return Verdict::Skip;
            }
        }
        Verdict::Search
    }

    fn table_reduce(&self, Ghost(c): Ghost<Setup>, n: &Node, quiet: bool, hist: i32, i: usize) -> (r:
        i32)
        requires
            sane(*n),
            self.wf(),
            c.params == self.params,
            c.features == self.features,
            c.lmr == self.lmr@,
            -135_000 <= hist <= 135_000,
        ensures
            r == table_reduction(c, *n, quiet, hist as int, i as int),
    {
        let row: usize = umin(n.depth as usize, 63);
        let col: usize = umin(i, 63);
        let pr = &self.params;
        let mut r: i32 = self.lmr[row * 64 + col] * 1024;
        if !quiet {
            proof {
                lemma_tdiv_bound(r as int, 2);
            }
            r = idiv(r, 2);
        }
        if self.features.cut_node_lmr && n.cut_node {
            r = r + pr.lmr_cut_f;
        }
        if !n.pv_node {
            r = r + pr.lmr_nonpv_f;
        }
        if self.features.ttpv_lmr && n.tt_pv {
            r = r - pr.lmr_ttpv_f;
        }
        r - iclamp(idiv(hist * 1024, pr.lmr_hist_div), -2048, 2048)
    }

    /// How much shallower a late move is searched at first.
    fn reduction(
        &self,
        Ghost(c): Ghost<Setup>,
        n: &Node,
        mv: &Move,
        hist: i32,
        i: usize,
        nd: i32,
    ) -> (r: i32)
        requires
            sane(*n),
            self.wf(),
            c.params == self.params,
            c.features == self.features,
            c.lmr == self.lmr@,
            -135_000 <= hist <= 135_000,
            i < 1_000_000,
            -1000 <= nd <= 1000,
        ensures
            r == reduction_s(c, *n, *mv, hist as int, i as int, nd as int),
            0 <= r <= max2(nd - 1, 0),
    {
        proof {
            reveal(reduction_s);
        }
        let quiet: bool = mv.is_quiet();
        let top: i32 = imax(nd - 1, 0);
        if self.features.log_lmr {
            if n.depth > 2 && i >= 1 + 2 * (int_of(n.ply == 0) as usize) && (!n.pv_node || quiet) {
                let a: i32 = ilog2i(i as i32 + 1);
                let b: i32 = ilog2i(n.depth);
                let h: i32 = idiv(hist + 15000, 30000);
                proof {
                    lemma_tdiv_bound(hist + 15000, 30000);
                }
                let r: i32 = a / 2 + b / 2 - int_of(!quiet || n.pv_node) - h + 2 * int_of(
                    n.cut_node,
                ) + 1;
                iclamp(r, 0, top)
            } else {
                0
            }
        } else if n.depth >= 3 && (quiet || (self.features.lmr_captures && !n.pv_node && n.depth
            >= 3)) && !n.in_check {
            let r: i32 = self.table_reduce(Ghost(c), n, quiet, hist, i);
            iclamp(idiv(r, 1024), 0, top)
        } else {
            0
        }
    }
}

// ---------------------------------------------------------------------------
// Taking a score in
// ---------------------------------------------------------------------------
/// What a node remembers of the moves it has tried.
pub struct Tried {
    pub alpha: i32,
    pub best: i32,
    pub best_move: Option<Move>,
    pub quiets: Vec<Move>,
    pub caps: Vec<Move>,
    pub done: bool,
}

impl Tried {
    pub open spec fn wf(&self, beta: int) -> bool {
        &&& -SCORE_CAP <= self.alpha <= SCORE_CAP
        &&& -SCORE_CAP <= self.best <= SCORE_CAP
        &&& !self.done ==> self.alpha < beta
        &&& self.best_move matches Some(m) ==> m.wf()
        &&& all_wf(self.quiets@)
        &&& all_wf(self.caps@)
    }
}

pub open spec fn run_of(st: State, list: RankedView, t: &Tried) -> Run {
    Run {
        st,
        list,
        alpha: t.alpha as int,
        best: t.best as int,
        best_move: t.best_move,
        quiets: t.quiets@,
        caps: t.caps@,
        done: t.done,
    }
}

impl Searcher {
    /// Learn from a move that reached beta.
    fn cut(&mut self, Ghost(c): Ghost<Setup>, p: &Position, n: &Node, mv: Move, t: &Tried)
        requires
            old(self).wf(),
            sane(*n),
            mv.wf(),
            c.features == old(self).features,
            all_wf(t.quiets@),
            all_wf(t.caps@),
        ensures
            final(self).wf(),
            framed(&*old(self), &*final(self)),
            final(self).stopped == old(self).stopped,
            final(self)@ == old(self)@.with_lore(
                cut_lore(c, old(self)@, *p, *n, mv, t.quiets@, t.caps@),
            ),
    {
        let on: bool = self.features.capture_hist;
        let bonus: i32 = capt_bonus(n.depth);
        if mv.is_quiet() {
            let slots = self.trail.cont_slots(n.ply);
            self.lore.on_beta_cutoff(p, mv, n.ply, n.depth, &slots, &t.quiets);
        } else {
            self.lore.credit_capture(on, p, &mv, bonus);
        }
        self.lore.charge_captures(on, p, mv, bonus, &t.caps);
    }

    /// Take a move's score in.
    fn absorb(
        &mut self,
        Ghost(c): Ghost<Setup>,
        Ghost(list): Ghost<RankedView>,
        p: &Position,
        n: &Node,
        t: &mut Tried,
        mv: Move,
        score: i32,
    )
        requires
            old(self).wf(),
            sane(*n),
            old(t).wf(n.beta as int),
            !old(t).done,
            mv.wf(),
            legal(*p).contains(mv),
            c.features == old(self).features,
            -SCORE_CAP <= score <= SCORE_CAP,
            headed(old(self)@.trail, *p, n.ply as int),
        ensures
            final(self).wf(),
            framed(&*old(self), &*final(self)),
            final(self).stopped == old(self).stopped,
            final(t).wf(n.beta as int),
            undisturbed(old(self)@.trail, final(self)@.trail, n.ply as int),
            headed(final(self)@.trail, *p, n.ply as int),
            final(self)@.effort == old(self)@.effort,
            final(self)@.scores == old(self)@.scores,
            old(t).alpha <= final(t).alpha,
            run_of(final(self)@, list, &*final(t)) == absorbed(
                c,
                *p,
                *n,
                run_of(old(self)@, list, &*old(t)),
                mv,
                score as int,
            ),
    {
        proof {
            reveal(absorbed);
        }
        let ghost r0 = run_of(self@, list, t);
        if score > t.best {
            t.best = score;
            t.best_move = Some(mv);
            if score > t.alpha {
                t.alpha = score;
                self.trail.update_pv(n.ply, mv);
                proof {
                    crate::trail::law_line_extends(old(self)@.trail, n.ply as int, mv);
                }
                if score >= n.beta {
                    self.cut(Ghost(c), p, n, mv, &*t);
                    t.done = true;
                    assert(run_of(self@, list, t) =~= absorbed(c, *p, *n, r0, mv, score as int));
                    return;
                }
            }
        }
        if mv.is_quiet() {
            t.quiets.push(mv);
        } else {
            t.caps.push(mv);
        }
        assert(run_of(self@, list, t) =~= absorbed(c, *p, *n, r0, mv, score as int));
    }

    fn note_root(&mut self, before: u64, mv: Move, score: i32)
        requires
            old(self).wf(),
            before <= old(self).nodes,
        ensures
            final(self).wf(),
            framed(&*old(self), &*final(self)),
            final(self).nodes == old(self).nodes,
            final(self).stopped == old(self).stopped,
            final(self)@ == root_noted(old(self)@, before as int, mv, score as int),
    {
        let cost: u64 = self.nodes - before;
        self.root_effort.push((mv, cost));
        self.root_scores.push((mv, score));
    }

    fn credit_again(&mut self, p: &Position, n: &Node, mv: Move, better: bool)
        requires
            old(self).wf(),
            sane(*n),
            mv.wf(),
        ensures
            final(self).wf(),
            framed(&*old(self), &*final(self)),
            final(self).stopped == old(self).stopped,
            final(self)@ == again_credited(
                old(self)@,
                *p,
                mv,
                n.depth as int,
                n.ply as int,
                better,
            ),
    {
        let bonus: i32 = hist_bonus(n.depth);
        let slots = self.trail.cont_slots(n.ply);
        self.lore.credit(
            p,
            mv,
            &slots,
            if better {
                bonus
            } else {
                -bonus
            },
        );
    }

    /// The end of a node.
    fn finish(
        &mut self,
        Ghost(c): Ghost<Setup>,
        Ghost(list): Ghost<RankedView>,
        board: &Board,
        n: &Node,
        t: &Tried,
        alpha: i32,
    ) -> (r: i32)
        requires
            old(self).wf(),
            board.hash == hash_s(board.pos),
            sane(*n),
            n.in_check || -MATE_IN_MAX < n.eval < MATE_IN_MAX || !old(self).features.corr_hist,
            t.wf(n.beta as int),
            c.features == old(self).features,
        ensures
            final(self).wf(),
            framed(&*old(self), &*final(self)),
            final(self).stopped == old(self).stopped,
            final(self)@.trail == old(self)@.trail,
            final(self)@.effort == old(self)@.effort,
            final(self)@.scores == old(self)@.scores,
            -SCORE_CAP <= r <= SCORE_CAP,
            (final(self)@, r as int) == finished(
                c,
                board.pos,
                *n,
                run_of(old(self)@, list, t),
                alpha as int,
            ),
    {
        proof {
            reveal(finished);
        }
        let ghost r0 = run_of(self@, list, t);
        if t.best == -INF {
            return t.alpha;
        }
        let forcing: bool = match t.best_move {
            Some(m) => m.is_capture(),
            None => false,
        };
        if self.features.corr_hist && !n.in_check && iabs(t.best) < MATE_IN_MAX && !forcing && ((
        t.best < n.eval && t.best < n.beta) || (t.best > n.eval && t.best_move.is_some())) {
            let last = self.trail.last_played(n.ply);
            let delta: u64 = self.trail.hash_delta();
            let diff: i32 = t.best - n.eval;
            assert(-100_000_000 <= diff * n.depth <= 100_000_000) by (nonlinear_arith)
                requires
                    -100_000 <= diff <= 100_000,
                    0 < n.depth <= 1000,
            ;
            self.lore.learn_correction(&board.pos, diff, n.depth, last, delta);
        }
        if n.excluded.is_none() {
            let bound: Bound = bound_of(t.best, alpha, n.beta);
            let se: i16 = if n.in_check {
                TT_EVAL_NONE
            } else {
                #[verifier::truncate]
                (n.raw as i16)
            };
            self.tt.store(
                board.hash,
                n.depth,
                score_to_tt(t.best, n.ply),
                bound,
                t.best_move,
                n.tt_pv,
                se,
            );
        }
        t.best
    }

    /// The node's evaluations.
    fn weigh(&mut self, board: &Board, n: &Node) -> (r: Node)
        requires
            old(self).wf(),
            board.wf(old(self).ev.weights()),
            n.ply < 127,
            n.entry matches Some(e) ==> e.wf(),
        ensures
            final(self).wf(),
            framed(&*old(self), &*final(self)),
            final(self).stopped == old(self).stopped,
            undisturbed(old(self)@.trail, final(self)@.trail, 128),
            final(self)@.effort == old(self)@.effort,
            final(self)@.scores == old(self)@.scores,
            (final(self)@, r) == weighed(
                old(self).setup(*board),
                old(self)@,
                board.pos,
                *n,
            ),
            -SCORE_CAP <= r.raw <= SCORE_CAP,
            -SCORE_CAP <= r.eval <= SCORE_CAP,
            -SCORE_CAP <= r.sharp <= SCORE_CAP,
            r.in_check || -MATE_IN_MAX < r.eval < MATE_IN_MAX || !final(self).features.corr_hist,
            r.depth == n.depth && r.beta == n.beta && r.ply == n.ply && r.excluded == n.excluded
                && r.entry == n.entry && r.in_check == n.in_check,
    {
        proof {
            reveal(weighed);
        }
        let mut r: Node = *n;
        if n.in_check {
            self.trail.set_eval(n.ply, NO_EVAL);
            r.raw = NO_EVAL;
            r.eval = NO_EVAL;
            r.sharp = NO_EVAL;
            r.improving = false;
            return r;
        }
        let raw: i32 = match eval_of(n.entry) {
            Some(v) => v,
            None => {
                let v: i32 = debug_eval(board, &self.ev, self.features.rule50_fade);
                self.tt.store_eval_only(
                    board.hash,
                    #[verifier::truncate]
                    (v as i16),
                );
                v
            },
        };
        let eval: i32 = if self.features.corr_hist {
            let last = self.trail.last_played(n.ply);
            let delta: u64 = self.trail.hash_delta();
            self.lore.corrected(&board.pos, raw, last, delta)
        } else {
            raw
        };
        self.trail.set_eval(n.ply, eval);
        let two: i32 = if n.ply >= 2 {
            self.trail.eval_stack[n.ply - 2]
        } else {
            NO_EVAL
        };
        let four: i32 = if n.ply >= 4 {
            self.trail.eval_stack[n.ply - 4]
        } else {
            NO_EVAL
        };
        r.raw = raw;
        r.eval = eval;
        r.sharp = sharpen(n.entry, eval, n.ply);
        r.improving = if two != NO_EVAL {
            eval > two
        } else if four != NO_EVAL {
            eval > four
        } else {
            false
        };
        r
    }

    /// Is the node decided before it begins?
    fn gate(&self, board: &Board, alpha: i32, beta: i32, ply: usize) -> (r: (Option<i32>, i32))
        requires
            ready(self, board, alpha as int, beta as int, ply as int),
        ensures
            ({
                let (out, a) = gate_s(
                    self.setup(*board),
                    self@,
                    board.pos,
                    alpha as int,
                    beta as int,
                    ply as int,
                );
                &&& r.0 is Some == out is Some
                &&& r.0 matches Some(v) ==> out == Some(v as int) && -SCORE_CAP <= v <= SCORE_CAP
                &&& r.1 == a
            }),
            r.0 is None ==> alpha <= r.1 < beta && ply < 127,
    {
        if ply == 0 {
            return (None, alpha);
        }
        if self.trail.is_draw(board.hash, board.pos.halfmove) {
            return (Some(self.draw_score(ply)), alpha);
        }
        if ply >= MAX_PLY - 1 {
            return (Some(debug_eval(board, &self.ev, self.features.rule50_fade)), alpha);
        }
        let a: i32 = imax(alpha, mate_score(ply));
        let b: i32 = imin(beta, -mate_score(ply + 1));
        if a >= b {
            (Some(a), a)
        } else {
            (None, a)
        }
    }

    /// Does the table answer?
    fn table_cut(
        &self,
        p: &Position,
        entry: Option<TtEntry>,
        depth: i32,
        alpha: i32,
        beta: i32,
        ply: usize,
        pv_node: bool,
        excluded: Option<Move>,
    ) -> (r: Option<i32>)
        requires
            ply < 128,
            entry matches Some(e) ==> e.wf(),
        ensures
            ({
                let hit = table_cut_s(
                    *p,
                    entry,
                    depth as int,
                    alpha as int,
                    beta as int,
                    ply as int,
                    pv_node,
                    excluded,
                );
                &&& r is Some == hit is Some
                &&& r matches Some(v) ==> hit == Some(v as int) && -SCORE_CAP <= v <= SCORE_CAP
            }),
    {
        match entry {
            Some(e) => {
                if excluded.is_none() && !pv_node && e.depth >= depth && e.has_bound() {
                    let s: i32 = score_from_tt(e.score, ply);
                    if is_answer(&e, s, alpha, beta) && p.halfmove < 90 {
                        return Some(s);
                    }
                }
                None
            },
            None => None,
        }
    }

    /// Credit the stored move on the way out.
    fn credit_hit(
        &mut self,
        p: &Position,
        m: Option<Move>,
        depth: i32,
        ply: usize,
    )
        requires
            old(self).wf(),
            ply < 128,
            0 < depth <= 1000,
            m matches Some(m) ==> m.wf(),
        ensures
            final(self).wf(),
            framed(&*old(self), &*final(self)),
            final(self).stopped == old(self).stopped,
            final(self)@ == old(self)@.with_lore(
                cut_credit(
                    old(self)@.lore,
                    old(self)@.trail,
                    *p,
                    m,
                    depth as int,
                    ply as int,
                ),
            ),
    {
        match m {
            Some(m) => {
                let ours: bool = match p.piece_at(m.from) {
                    Some((_, s)) => s == p.side,
                    None => false,
                };
                let free: bool = match p.piece_at(m.to) {
                    Some((_, s)) => s != p.side,
                    None => true,
                };
                if ours && free && m.is_quiet() {
                    let slots = self.trail.cont_slots(ply);
                    self.lore.credit(p, m, &slots, hist_bonus(depth));
                    self.lore.add_killer(ply, m);
                }
            },
            None => {},
        }
    }
}

// ---------------------------------------------------------------------------
// The recursion
// ---------------------------------------------------------------------------
pub open spec fn same_answer(a: Option<i32>, b: Option<int>) -> bool {
    match (a, b) {
        (Some(x), Some(y)) => x == y,
        (None, None) => true,
        _ => false,
    }
}

/// What the singular search says of the table's move.
pub enum Sing {
    Extend(i32),
    Return(i32),
}

pub open spec fn same_sing(a: Sing, b: Singular) -> bool {
    match (a, b) {
        (Sing::Extend(x), Singular::Extend(y)) => x == y,
        (Sing::Return(x), Singular::Return(y)) => x == y,
        _ => false,
    }
}

/// What searching below a ply leaves alone: the best lines down to it, and what
/// the root has noted.
pub open spec fn below(a: &Searcher, b: &Searcher, ply: int) -> bool {
    &&& framed(a, b)
    &&& b.wf()
    &&& b@.trail.keys == a@.trail.keys
    &&& b@.trail.pre_moves == a@.trail.pre_moves
    &&& b@.trail.same_above(a@.trail, ply + 1)
    &&& unpassed(a@.trail, b@.trail, ply)
    &&& b@.effort == a@.effort
    &&& b@.scores == a@.scores
}

/// A node on a board that can be searched.
pub open spec fn poised(s: &Searcher, b: &Board, n: &Node, alpha: int) -> bool {
    &&& ready(s, b, alpha, n.beta as int, n.ply as int)
    &&& sane(*n)
    &&& n.in_check == b.pos.in_check()
    &&& n.in_check || -MATE_IN_MAX < n.eval < MATE_IN_MAX || !s.features.corr_hist
}

impl Searcher {
    /// Hand the opponent a free move and see whether the position still holds.
    fn null_try(&mut self, board: &mut Board, n: &Node, Ghost(alpha): Ghost<int>) -> (r: Option<
        i32,
    >)
        requires
            poised(&*old(self), &*old(board), n, alpha),
            n.sharp >= n.beta,
        ensures
            *final(board) == *old(board),
            below(&*old(self), &*final(self), n.ply as int),
            r matches Some(v) ==> -SCORE_CAP <= v <= SCORE_CAP,
            ({
                let (s, o) = null_s(
                    old(self).setup(*old(board)),
                    old(self)@,
                    old(board).pos,
                    *n,
                );
                &&& halted(&*old(self), &*final(self), s.nodes, false)
                &&& !final(self).stopped ==> final(self)@ == s && same_answer(r, o)
            }),
        decreases 128 - n.ply, open_node(*n), 1int, 0int,
    {
        let ghost c = self.setup(*board);
        let ghost p = board.pos;
        let ghost st = self@;
        let red: i32 = self.null_reduce(Ghost(c), n);
        let undo = board.make_null_move();
        assert(board.wf(self.ev.weights()));
        self.trail.push_key(board.hash);
        self.trail.set_null(n.ply, true);
        let ghost s0 = self@;
        let v: i32 = self.negamax(
            board,
            n.depth - red,
            -n.beta,
            -n.beta + 1,
            n.ply + 1,
            false,
            !n.cut_node,
            None,
        );
        let ghost s1 = self@;
        self.trail.set_null(n.ply, false);
        self.trail.pop_key();
        board.unmake_null_move(&undo);
        let score: i32 = -v;
        let r: Option<i32> = if score >= n.beta {
            if is_mate(score) {
                Some(n.beta)
            } else {
                Some(score)
            }
        } else {
            None
        };
        proof {
            assert(self@.trail.keys =~= st.trail.keys);
            reveal(null_s);
            reveal(negamax_s);
            assert(s0 =~= st.on_trail(
                st.trail.with_key(hash_s(after_null(p))).with_null(n.ply as int, true),
            ));
        }
        r
    }

    /// Reverse futility, razoring and null move.
    fn prune(&mut self, board: &mut Board, n: &Node, alpha: i32) -> (r: Option<i32>)
        requires
            poised(&*old(self), &*old(board), n, alpha as int),
        ensures
            *final(board) == *old(board),
            below(&*old(self), &*final(self), n.ply as int),
            r matches Some(v) ==> -SCORE_CAP <= v <= SCORE_CAP,
            ({
                let (s, o) = prune_s(
                    old(self).setup(*old(board)),
                    old(self)@,
                    old(board).pos,
                    *n,
                    alpha as int,
                );
                &&& halted(&*old(self), &*final(self), s.nodes, false)
                &&& !final(self).stopped ==> final(self)@ == s && same_answer(r, o)
            }),
        decreases 128 - n.ply, open_node(*n), 2int, 0int,
    {
        let ghost c = self.setup(*board);
        let ghost p = board.pos;
        proof {
            reveal(prune_s);
            reveal(null_s);
            lemma_prune_counts(c, self@, p, *n, alpha as int);
        }
        if n.pv_node || n.in_check {
            return None;
        }
        let futile: Option<i32> = self.rfp(Ghost(c), n);
        if futile.is_some() {
            return futile;
        }
        if self.can_razor(Ghost(c), n, alpha) {
            let q: i32 = self.quiescence(board, alpha, alpha + 1, n.ply);
            if q < alpha {
                return Some(q);
            }
        }
        if self.can_pass(Ghost(c), &board.pos, n) {
            return self.null_try(board, n, Ghost(alpha as int));
        }
        None
    }

    /// Search every other move against a window just below the table's score.
    fn singular(&mut self, board: &mut Board, n: &Node, mv: Move, Ghost(alpha): Ghost<int>) -> (r:
        Sing)
        requires
            poised(&*old(self), &*old(board), n, alpha),
            headed(old(self)@.trail, old(board).pos, n.ply as int),
            mv.wf(),
        ensures
            *final(board) == *old(board),
            framed(&*old(self), &*final(self)),
            final(self).wf(),
            undisturbed(old(self)@.trail, final(self)@.trail, n.ply as int),
            headed(final(self)@.trail, old(board).pos, n.ply as int),
            final(self)@.effort == old(self)@.effort,
            final(self)@.scores == old(self)@.scores,
            r matches Sing::Return(v) ==> -SCORE_CAP <= v <= SCORE_CAP,
            r matches Sing::Extend(x) ==> -1 <= x <= 2,
            ({
                let (s, o) = singular_s(
                    old(self).setup(*old(board)),
                    old(self)@,
                    old(board).pos,
                    *n,
                    mv,
                );
                &&& halted(&*old(self), &*final(self), s.nodes, false)
                &&& !final(self).stopped ==> final(self)@ == s && same_sing(r, o)
            }),
        decreases 128 - n.ply, open_node(*n), 1int, 0int,
    {
        let ghost c = self.setup(*board);
        let ghost p = board.pos;
        let ghost st = self@;
        proof {
            reveal(singular_s);
        }
        if n.ply == 0 || n.excluded.is_some() || n.depth < self.params.sing_depth || n.ply >= 120 {
            return Sing::Extend(0);
        }
        let e: TtEntry = match n.entry {
            Some(e) => e,
            None => {
                return Sing::Extend(0);
            },
        };
        let floor: bool = match e.bound {
            Bound::Lower => true,
            Bound::Exact => true,
            _ => false,
        };
        if Some(mv) != e.best || !floor || e.depth < n.depth - 3 {
            return Sing::Extend(0);
        }
        let ts: i32 = score_from_tt(e.score, n.ply);
        if is_mate(ts) {
            return Sing::Extend(0);
        }
        assert(singular_tries(c, *n, mv) == Some(ts as int));
        assert(0 <= self.params.sing_margin * n.depth <= 8 * 1000) by (nonlinear_arith)
            requires
                0 <= self.params.sing_margin <= 8,
                0 <= n.depth <= 1000,
        ;
        let target: i32 = ts - self.params.sing_margin * n.depth;
        let s: i32 = self.negamax(
            board,
            idiv(n.depth - 1, 2),
            target - 1,
            target,
            n.ply,
            false,
            n.cut_node,
            Some(mv),
        );
        let r: Sing = if s < target {
            if !n.pv_node && s < target - self.params.double_ext {
                Sing::Extend(2)
            } else {
                Sing::Extend(1)
            }
        } else if target >= n.beta {
            Sing::Return(target)
        } else if !n.pv_node && !is_mate(s) && s >= n.beta {
            Sing::Return(s)
        } else if ts >= n.beta {
            Sing::Extend(-1)
        } else {
            Sing::Extend(0)
        };
        proof {
            reveal(negamax_s);
        }
        r
    }

    /// Search a child, on the board after the move.
    fn child(
        &mut self,
        board: &mut Board,
        n: &Node,
        alpha: i32,
        nd: i32,
        red: i32,
        first: bool,
    ) -> (r: (i32, bool))
        requires
            ready(&*old(self), &*old(board), alpha as int, n.beta as int, n.ply as int),
            sane(*n),
            nd <= n.depth + 1,
            -3 <= nd,
            0 <= red <= max2(nd - 1, 0),
        ensures
            *final(board) == *old(board),
            below(&*old(self), &*final(self), n.ply as int),
            -SCORE_CAP <= r.0 <= SCORE_CAP,
            ({
                let full = child_s(
                    old(self).setup(*old(board)),
                    old(self)@,
                    old(board).pos,
                    *n,
                    alpha as int,
                    nd as int,
                    red as int,
                    first,
                );
                &&& halted(&*old(self), &*final(self), full.0.nodes, false)
                &&& !final(self).stopped ==> (final(self)@, r.0 as int, r.1) == full
            }),
        decreases 128 - n.ply, open_node(*n), 1int, 0int,
    {
        let ghost c = self.setup(*board);
        let ghost q = board.pos;
        let ghost st = self@;
        proof {
            reveal(child_s);
            reveal(negamax_s);
            lemma_child_counts(
                c,
                st,
                q,
                *n,
                alpha as int,
                nd as int,
                red as int,
                first,
            );
        }
        if first {
            let v: i32 = self.negamax(
                board,
                nd,
                -n.beta,
                -alpha,
                n.ply + 1,
                n.pv_node,
                !n.pv_node && !n.cut_node,
                None,
            );
            return (-v, false);
        }
        let mut v: i32 = self.negamax(
            board,
            nd - red,
            -alpha - 1,
            -alpha,
            n.ply + 1,
            false,
            true,
            None,
        );
        let again: bool = -v > alpha && red > 0;
        if again {
            v = self.negamax(
                board,
                nd,
                -alpha - 1,
                -alpha,
                n.ply + 1,
                false,
                !n.cut_node,
                None,
            );
        }
        if -v > alpha && -v < n.beta {
            v = self.negamax(board, nd, -n.beta, -alpha, n.ply + 1, true, false, None);
        }
        (-v, again)
    }

    /// Take a searched move's score in: noted at the root, credited where it was
    /// searched again. Returns true where the search was cut short.
    fn settle(
        &mut self,
        Ghost(c): Ghost<Setup>,
        Ghost(list): Ghost<RankedView>,
        Ghost(r0): Ghost<Run>,
        p: &Position,
        n: &Node,
        t: &mut Tried,
        before: u64,
        mv: Move,
        score: i32,
        again: bool,
    ) -> (r: bool)
        requires
            old(self).wf(),
            sane(*n),
            old(t).wf(n.beta as int),
            !old(t).done,
            mv.wf(),
            legal(*p).contains(mv),
            c.features == old(self).features,
            -SCORE_CAP <= score <= SCORE_CAP,
            headed(old(self)@.trail, *p, n.ply as int),
            r0 == run_of(r0.st, list, &*old(t)),
            r0.st.nodes == before,
            before <= old(self).nodes,
        ensures
            searched(&*old(self), &*final(self), *p, n.ply as int),
            final(t).wf(n.beta as int),
            final(self).stopped == old(self).stopped,
            r == old(self).stopped,
            final(self)@.scores.len() <= old(self)@.scores.len() + 1,
            old(t).alpha <= final(t).alpha,
            !r ==> run_of(final(self)@, list, &*final(t)) == settled(
                c,
                *p,
                *n,
                r0,
                old(self)@,
                mv,
                score as int,
                again,
            ),
    {
        if n.ply == 0 {
            self.note_root(before, mv, score);
        }
        if again && mv.is_quiet() {
            let better: bool = score > t.best;
            self.credit_again(p, n, mv, better);
        }
        if self.stopped {
            return true;
        }
        let ghost s3 = self@;
        assert(run_of(s3, list, &*t) =~= (Run { st: s3, ..r0 }));
        proof {
            reveal(settled);
        }
        self.absorb(Ghost(c), Ghost(list), p, n, t, mv, score);
        false
    }

    /// The depth a child is searched to, on the board after the move.
    fn depth_below(&self, Ghost(c): Ghost<Setup>, board: &Board, n: &Node, ext: i32) -> (r: i32)
        requires
            sane(*n),
            c.params == self.params,
            c.features == self.features,
            board.occ_all == crate::position::occ_s(board.pos.pieces),
            -1 <= ext <= 2,
        ensures
            r == child_depth(c, *n, board.pos, ext as int),
            n.depth - 2 <= r <= n.depth + 1,
    {
        let mut e: i32 = ext;
        if self.features.check_ext && board.in_check() && n.eval != NO_EVAL && iabs(n.eval)
            <= self.params.check_ext_eval {
            e = imax(e, 1);
        }
        n.depth - 1 + e
    }

    /// Play a move, search what it leads to, and take it back.
    fn descend(
        &mut self,
        board: &mut Board,
        n: &Node,
        alpha: i32,
        mv: Move,
        hist: i32,
        i: usize,
        ext: i32,
    ) -> (r: (i32, bool))
        requires
            poised(&*old(self), &*old(board), n, alpha as int),
            playable(old(board).pos, mv),
            headed(old(self)@.trail, old(board).pos, n.ply as int),
            -135_000 <= hist <= 135_000,
            i < 1_000_000,
            -1 <= ext <= 2,
        ensures
            *final(board) == *old(board),
            below(&*old(self), &*final(self), n.ply as int),
            headed(final(self)@.trail, old(board).pos, n.ply as int),
            -SCORE_CAP <= r.0 <= SCORE_CAP,
            ({
                let c = old(self).setup(*old(board));
                let p = old(board).pos;
                let q = after(p, mv);
                let nd = child_depth(c, *n, q, ext as int);
                let (s1, score, again) = child_s(
                    c,
                    stepped(old(self)@, p, mv, n.ply as int),
                    q,
                    *n,
                    alpha as int,
                    nd,
                    reduction_s(c, *n, mv, hist as int, i as int, nd),
                    i == 0,
                );
                &&& halted(&*old(self), &*final(self), s1.nodes, false)
                &&& !final(self).stopped ==> final(self)@ == s1.on_trail(s1.trail.without_key())
                    && r.0 == score && r.1 == again
            }),
        decreases 128 - n.ply, open_node(*n), 2int, 0int,
    {
        let ghost c = self.setup(*board);
        let ghost p = board.pos;
        let ghost st = self@;
        let step: Option<(usize, usize)> = match board.pos.piece_at(mv.from) {
            Some((pt, _)) => Some((pt.idx(), mv.to as usize)),
            None => None,
        };
        self.trail.set_played(n.ply, step);
        let undo = board.make_move(&mv, &mut self.ev);
        self.trail.push_key(board.hash);
        let ghost s0 = self@;
        assert(s0 =~= stepped(st, p, mv, n.ply as int));
        let nd: i32 = self.depth_below(Ghost(c), board, n, ext);
        let red: i32 = self.reduction(Ghost(c), n, &mv, hist, i, nd);
        let r: (i32, bool) = self.child(board, n, alpha, nd, red, i == 0);
        let ghost s1 = self@;
        self.trail.pop_key();
        board.unmake_move(&mv, &undo);
        proof {
            assert(self@.trail.keys =~= st.trail.keys);
            lemma_same_above(s1.trail, s0.trail, n.ply + 1, n.ply as int);
        }
        r
    }

    /// Play a move, search it and take its score in. Returns true where the
    /// search was cut short below it.
    fn try_move(
        &mut self,
        board: &mut Board,
        n: &Node,
        Ghost(list): Ghost<RankedView>,
        t: &mut Tried,
        mv: Move,
        hist: i32,
        i: usize,
        ext: i32,
    ) -> (r: bool)
        requires
            poised(&*old(self), &*old(board), n, old(t).alpha as int),
            old(t).wf(n.beta as int),
            !old(t).done,
            legal(old(board).pos).contains(mv),
            playable(old(board).pos, mv),
            headed(old(self)@.trail, old(board).pos, n.ply as int),
            -135_000 <= hist <= 135_000,
            i < 1_000_000,
            -1 <= ext <= 2,
        ensures
            *final(board) == *old(board),
            searched(&*old(self), &*final(self), old(board).pos, n.ply as int),
            final(t).wf(n.beta as int),
            r ==> final(self).stopped,
            old(t).alpha <= final(t).alpha,
            !r && !old(self).stopped && final(self).stopped ==> n.ply == 0 && i > 0 && weary(
                &old(self).start,
                old(self).soft as int,
            ),
            !final(self).stopped && n.ply == 0 && i > 0 ==> at_ease(
                &old(self).start,
                old(self).soft as int,
            ),
            final(self)@.scores.len() <= old(self)@.scores.len() + 1,
            ({
                let full = tried_s(
                    old(self).setup(*old(board)),
                    old(board).pos,
                    *n,
                    run_of(old(self)@, list, &*old(t)),
                    mv,
                    hist as int,
                    i as int,
                    ext as int,
                );
                &&& halted(
                    &*old(self),
                    &*final(self),
                    full.st.nodes,
                    n.ply == 0 && i > 0 && weary(&old(self).start, old(self).soft as int),
                )
                &&& !final(self).stopped ==> run_of(final(self)@, list, &*final(t)) == full
            }),
        decreases 128 - n.ply, open_node(*n), 3int, 0int,
    {
        let ghost c = self.setup(*board);
        let ghost p = board.pos;
        let ghost r0 = run_of(self@, list, &*t);
        let before: u64 = self.nodes;
        let (score, again): (i32, bool) = self.descend(board, n, t.alpha, mv, hist, i, ext);
        proof {
            lemma_same_above(self@.trail, old(self)@.trail, n.ply + 1, n.ply as int);
            lemma_tried(c, p, *n, r0, mv, hist as int, i as int, ext as int);
            let nd = child_depth(c, *n, after(p, mv), ext as int);
            let (s1, v, g) = child_s(
                c,
                stepped(r0.st, p, mv, n.ply as int),
                after(p, mv),
                *n,
                r0.alpha,
                nd,
                reduction_s(c, *n, mv, hist as int, i as int, nd),
                i == 0,
            );
            lemma_settled_counts(c, p, *n, r0, s1.on_trail(s1.trail.without_key()), mv, v, g);
        }
        if self.settle(
            Ghost(c),
            Ghost(list),
            Ghost(r0),
            &board.pos,
            n,
            t,
            before,
            mv,
            score,
            again,
        ) {
            return true;
        }
        // At the root, and only there, give up on an iteration that has already
        // gone well past what was planned for the whole move.
        if n.ply == 0 && i > 0 {
            let elapsed: u128 = time_since(&self.start);
            if elapsed / 2 >= self.soft {
                self.stopped = true;
            }
            assert(clock_says(&old(self).start, elapsed));
        }
        false
    }

    /// Try the moves of a node in order.
    fn search_moves(&mut self, board: &mut Board, n: &Node, alpha: i32) -> (r: i32)
        requires
            poised(&*old(self), &*old(board), n, alpha as int),
            headed(old(self)@.trail, old(board).pos, n.ply as int),
        ensures
            *final(board) == *old(board),
            searched(&*old(self), &*final(self), old(board).pos, n.ply as int),
            unhurried(&*old(self), &*final(self)),
            -SCORE_CAP <= r <= SCORE_CAP,
            ({
                let full = moves_s(
                    old(self).setup(*old(board)),
                    old(self)@,
                    old(board).pos,
                    *n,
                    alpha as int,
                );
                &&& halted(
                    &*old(self),
                    &*final(self),
                    full.0.nodes,
                    n.ply == 0 && legal(old(board).pos).len() > 1 && weary(
                        &old(self).start,
                        old(self).soft as int,
                    ),
                )
                &&& !final(self).stopped ==> (final(self)@, r as int) == full
            }),
        decreases 128 - n.ply, open_node(*n), 4int, 0int,
    {
        let ghost c = self.setup(*board);
        let ghost p = board.pos;
        let ghost st = self@;
        let moves: Vec<Move> = generate_legal(&board.pos);
        proof {
            lemma_moves(c, st, p, *n, alpha as int);
            lemma_moves_counts(c, st, p, *n, alpha as int);
        }
        let ghost full = moves_s(c, st, p, *n, alpha as int);
        if moves.len() == 0 {
            return if n.in_check {
                mate_score(n.ply)
            } else {
                0
            };
        }
        proof {
            lemma_legal_playable(p);
            lemma_legal_count(p);
            assert(forall|i: int|
                0 <= i < moves@.len() ==> playable(p, #[trigger] moves@[i]));
        }
        let len: usize = moves.len();
        let slots = self.trail.cont_slots(n.ply);
        let mut list: Ranked = score_moves(
            &self.lore,
            self.features.capture_hist,
            &board.pos,
            moves,
            move_of(n.entry),
            n.ply,
            n.depth,
            &slots,
        );
        let mut t = Tried {
            alpha,
            best: -INF,
            best_move: None,
            quiets: Vec::new(),
            caps: Vec::new(),
            done: false,
        };
        let ghost run0 = start_run(c, st, p, *n, alpha as int);
        assert(run_of(self@, list@, &t) =~= run0);
        let mut i: usize = 0;
        let mut over: bool = false;
        while i < len && !t.done && !over
            invariant
                i <= len,
                len == legal(p).len(),
                len < 1_000_000,
                legal(p).len() > 0 ==> moves_s(c, st, p, *n, alpha as int) == (match loop_s(
                    c,
                    p,
                    *n,
                    run0,
                    0,
                    len as int,
                ) {
                    Outcome::Early(s2, v) => (s2, v),
                    Outcome::Done(r) => finished(c, p, *n, r, alpha as int),
                }),
                list@.wf(),
                list@.moves.len() == len,
                forall|m: Move| #[trigger] list@.moves.contains(m) ==> legal(p).contains(m),
                *board == *old(board),
                p == board.pos,
                st == old(self)@,
                c == old(self).setup(*old(board)),
                c == self.setup(*board),
                searched(&*old(self), &*self, p, n.ply as int),
                poised(&*old(self), &*old(board), n, alpha as int),
                t.wf(n.beta as int),
                alpha <= t.alpha,
                unhurried(&*old(self), &*self),
                self@.scores.len() <= st.scores.len() + i,
                !old(self).stopped && self.stopped ==> n.ply == 0 && len > 1 && weary(
                    &old(self).start,
                    old(self).soft as int,
                ),
                full == moves_s(c, st, p, *n, alpha as int),
                full.0.nodes == loop_nodes(loop_s(c, p, *n, run0, 0, len as int)),
                !self.stopped && !over ==> loop_s(c, p, *n, run0, 0, len as int) == loop_s(
                    c,
                    p,
                    *n,
                    run_of(self@, list@, &t),
                    i as int,
                    len as int,
                ),
                !self.stopped && over ==> loop_s(c, p, *n, run0, 0, len as int) == Outcome::Done(
                    run_of(self@, list@, &t),
                ),
            decreases len - i,
        {
            let ghost r0 = run_of(self@, list@, &t);
            proof {
                lemma_loop(c, p, *n, r0, i as int, len as int);
                lemma_loop_counts(c, p, *n, r0, i as int, len as int);
            }
            list.pick(i);
            let mv: Move = list.moves[i];
            let hist: i32 = list.hist[i];
            let ghost r1 = run_of(self@, list@, &t);
            proof {
                assert(list@.moves.contains(list@.moves[i as int]));
                assert(-135_000 <= list@.hist[i as int] <= 135_000);
                lemma_legal_playable(p);
                let k = choose|k: int| 0 <= k < legal(p).len() && legal(p)[k] == mv;
                assert(playable(p, legal(p)[k]));
            }
            if Some(mv) == n.excluded {
                i = i + 1;
                continue;
            }
            match self.singular(board, n, mv, Ghost(t.alpha as int)) {
                Sing::Return(v) => {
                    if self.stopped {
                        return 0;
                    }
                    return v;
                },
                Sing::Extend(ext) => {
                    if self.stopped {
                        return 0;
                    }
                    match self.shallow(
                        Ghost(c),
                        &board.pos,
                        n,
                        t.best,
                        t.alpha,
                        &mv,
                        hist,
                        i,
                    ) {
                        Verdict::Break => {
                            over = true;
                        },
                        Verdict::Skip => {},
                        Verdict::Search => {
                            if self.try_move(
                                board,
                                n,
                                Ghost(list@),
                                &mut t,
                                mv,
                                hist,
                                i,
                                ext,
                            ) {
                                return 0;
                            }
                        },
                    }
                },
            }
            i = i + 1;
        }
        proof {
            if !over {
                lemma_loop(c, p, *n, run_of(self@, list@, &t), i as int, len as int);
            }
        }
        self.finish(Ghost(c), Ghost(list@), board, n, &t, alpha)
    }

    /// A node past its table entry and its evaluation.
    fn interior(&mut self, board: &mut Board, n: &Node, alpha: i32) -> (r: i32)
        requires
            poised(&*old(self), &*old(board), n, alpha as int),
            headed(old(self)@.trail, old(board).pos, n.ply as int),
        ensures
            *final(board) == *old(board),
            searched(&*old(self), &*final(self), old(board).pos, n.ply as int),
            unhurried(&*old(self), &*final(self)),
            -SCORE_CAP <= r <= SCORE_CAP,
            ({
                let full = interior_s(
                    old(self).setup(*old(board)),
                    old(self)@,
                    old(board).pos,
                    *n,
                    alpha as int,
                );
                &&& halted(
                    &*old(self),
                    &*final(self),
                    full.0.nodes,
                    n.ply == 0 && legal(old(board).pos).len() > 1 && weary(
                        &old(self).start,
                        old(self).soft as int,
                    ),
                )
                &&& !final(self).stopped ==> (final(self)@, r as int) == full
            }),
        decreases 128 - n.ply, open_node(*n), 5int, 0int,
    {
        let ghost c = self.setup(*board);
        let ghost p = board.pos;
        proof {
            lemma_interior(c, self@, p, *n, alpha as int);
            lemma_interior_counts(c, self@, p, *n, alpha as int);
        }
        let cut: Option<i32> = self.prune(board, n, alpha);
        proof {
            lemma_same_above(self@.trail, old(self)@.trail, n.ply + 1, n.ply as int);
            assert(headed(self@.trail, p, n.ply as int));
        }
        match cut {
            Some(v) => {
                return v;
            },
            None => {},
        }
        let mut m: Node = *n;
        if self.features.iir && n.depth >= 4 && move_of(n.entry).is_none() {
            m.depth = n.depth - 1;
        }
        match self.probcut(Ghost(c), &m) {
            Some(v) => {
                return v;
            },
            None => {},
        }
        self.search_moves(board, &m, alpha)
    }

    /// A node whose own count is in, and whose line is empty.
    fn entered(
        &mut self,
        board: &mut Board,
        depth: i32,
        alpha: i32,
        beta: i32,
        ply: usize,
        pv_node: bool,
        cut_node: bool,
        excluded: Option<Move>,
    ) -> (r: i32)
        requires
            ready(&*old(self), &*old(board), alpha as int, beta as int, ply as int),
            0 < depth,
            depth_ok(depth as int, ply as int),
            old(self)@.trail.pv_len[ply as int] == 0,
        ensures
            *final(board) == *old(board),
            searched(&*old(self), &*final(self), old(board).pos, ply as int),
            unhurried(&*old(self), &*final(self)),
            -SCORE_CAP <= r <= SCORE_CAP,
            ({
                let full = entered_s(
                    old(self).setup(*old(board)),
                    old(self)@,
                    old(board).pos,
                    depth as int,
                    alpha as int,
                    beta as int,
                    ply as int,
                    pv_node,
                    cut_node,
                    excluded,
                );
                &&& halted(
                    &*old(self),
                    &*final(self),
                    full.0.nodes,
                    ply == 0 && legal(old(board).pos).len() > 1 && weary(
                        &old(self).start,
                        old(self).soft as int,
                    ),
                )
                &&& !final(self).stopped ==> (final(self)@, r as int) == full
            }),
        decreases 128 - ply, (if excluded is None { 1int } else { 0 }), 6int, 0int,
    {
        let ghost p = board.pos;
        proof {
            lemma_entered(
                self.setup(*board),
                self@,
                p,
                depth as int,
                alpha as int,
                beta as int,
                ply as int,
                pv_node,
                cut_node,
                excluded,
            );
        }
        let (out, a): (Option<i32>, i32) = self.gate(board, alpha, beta, ply);
        match out {
            Some(v) => {
                return v;
            },
            None => {},
        }
        let entry: Option<TtEntry> = self.tt.probe(board.hash);
        match self.table_cut(&board.pos, entry, depth, a, beta, ply, pv_node, excluded) {
            Some(v) => {
                if self.features.tt_cut_credit && v >= beta {
                    self.credit_hit(&board.pos, move_of(entry), depth, ply);
                }
                return v;
            },
            None => {},
        }
        let seen: bool = match entry {
            Some(e) => e.pv,
            None => false,
        };
        let n0 = Node {
            depth,
            beta,
            ply,
            pv_node,
            cut_node,
            excluded,
            in_check: board.in_check(),
            entry,
            tt_pv: pv_node || seen,
            raw: 0,
            eval: 0,
            sharp: 0,
            improving: false,
        };
        assert(n0 == node_of(
            self@,
            p,
            depth as int,
            beta as int,
            ply as int,
            pv_node,
            cut_node,
            excluded,
        ));
        let ghost s1 = self@;
        let n: Node = self.weigh(board, &n0);
        proof {
            lemma_same_above(self@.trail, s1.trail, 128, ply as int);
        }
        self.interior(board, &n, a)
    }

    /// One node: the score of a position to a depth, with a window.
    ///
    /// `cut_node` says this node is expected to fail high, and `excluded` is a
    /// move it pretends does not exist.
    pub fn negamax(
        &mut self,
        board: &mut Board,
        depth: i32,
        alpha: i32,
        beta: i32,
        ply: usize,
        pv_node: bool,
        cut_node: bool,
        excluded: Option<Move>,
    ) -> (r: i32)
        requires
            ready(&*old(self), &*old(board), alpha as int, beta as int, ply as int),
            depth_ok(depth as int, ply as int),
        ensures
            *final(board) == *old(board),
            searched(&*old(self), &*final(self), old(board).pos, ply as int),
            unhurried(&*old(self), &*final(self)),
            -SCORE_CAP <= r <= SCORE_CAP,
            counted_on(&*old(self), &*final(self)),
            ({
                let full = negamax_s(
                    old(self).setup(*old(board)),
                    old(self)@,
                    old(board).pos,
                    depth as int,
                    alpha as int,
                    beta as int,
                    ply as int,
                    pv_node,
                    cut_node,
                    excluded,
                );
                &&& halted(
                    &*old(self),
                    &*final(self),
                    full.0.nodes,
                    ply == 0 && legal(old(board).pos).len() > 1 && weary(
                        &old(self).start,
                        old(self).soft as int,
                    ),
                )
                &&& !final(self).stopped ==> (final(self)@, r as int) == full
            }),
        decreases 128 - ply, (if excluded is None { 1int } else { 0 }), 7int, 0int,
    {
        let ghost c = self.setup(*board);
        let ghost p = board.pos;
        proof {
            lemma_negamax(
                c,
                self@,
                p,
                depth as int,
                alpha as int,
                beta as int,
                ply as int,
                pv_node,
                cut_node,
                excluded,
            );
            lemma_negamax_counts(
                c,
                self@,
                p,
                depth as int,
                alpha as int,
                beta as int,
                ply as int,
                pv_node,
                cut_node,
                excluded,
            );
            lemma_without_line(self@.trail, ply as int);
        }
        self.trail.clear_line(ply);
        if depth <= 0 {
            return self.quiescence(board, alpha, beta, ply);
        }
        if self.visit() {
            return 0;
        }
        self.entered(board, depth, alpha, beta, ply, pv_node, cut_node, excluded)
    }
}

}
