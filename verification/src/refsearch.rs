//! The staged search: another principal variation search over the same board,
//! network, table and clock.
use vstd::prelude::*;
use crate::board::{hash_s, Board};
use crate::histories::{replies_ok, Histories};
use crate::lore::Slots;
use crate::moves::{all_wf, Move};
use crate::movegen::{
    generate_legal, law_legal_moves_distinct, legal, lemma_legal_count, lemma_legal_playable,
};
use crate::negamax::{below, headed, same_answer, same_sing, sane, searched, Sing};
use crate::nnue::SCORE_CAP;
use crate::node::{Node, Stand, State, NO_EVAL};
use crate::num::{iabs, iclamp, idiv, imax, imin, int_of, lemma_tdiv_bound};
use crate::order::{
    awaits, fuel, law_each_move_once, law_loaded_moves_await, lemma_loaded_fuel, lemma_next_uses,
    loaded, new_order, sound, MoveOrder, OrderView,
};
use crate::position::{after, playable, Position};
use crate::quiesce::{bound_of, eval_of, is_answer, move_of, sharpen};
use crate::reftree::{
    lemma_ref, lemma_ref_child_counts, lemma_ref_counts, lemma_ref_entered,
    lemma_ref_finished_counts, lemma_ref_interior, lemma_ref_interior_counts, lemma_ref_loop,
    lemma_ref_loop_counts, lemma_ref_null, lemma_ref_q_child, lemma_ref_q_loop,
    lemma_ref_q_loop_counts, lemma_ref_quiesce, lemma_ref_quiesce_counts, lemma_ref_singular,
    lemma_ref_take_counts, lemma_ref_tried, move_score_s, piece_or_pawn, ref_absorbed, ref_again,
    ref_charged, ref_child_s, ref_entered_s, ref_finished, ref_gate_s, ref_interior_s,
    ref_learned, ref_loop_nodes, ref_loop_s, ref_node_of, ref_null_s, ref_null_tries,
    ref_q_absorbed, ref_q_child_s, ref_q_loop_s, ref_q_stand, ref_q_start, ref_quiesce_s,
    ref_reduction, ref_rfp_s, ref_s, ref_singular_s, ref_singular_tries, ref_skips, ref_start,
    ref_table_cut, ref_take_nodes, ref_tried_s, ref_weighed, RefOutcome, RefQRun, RefRun,
};
use crate::score::{
    debug_eval, has_pieces, hist_bonus, ilog2i, is_mate, mate_score, score_from_tt, score_to_tt,
    INF, MATE_IN_MAX, MAX_PLY,
};
use crate::searcher::{counted_on, depth_ok, framed, halted, ready, undisturbed, Searcher};
use crate::see::see_ge;
use crate::trail::{lemma_same_above, lemma_without_line, TrailView};
use crate::tree::{open_node, Singular};
use crate::tt::{Bound, TtEntry, TT_EVAL_NONE};

verus! {

/// What a staged quiescence call leaves alone: of the trail everything but the
/// moves played on it.
pub open spec fn calm_but_moves(a: &Searcher, b: &Searcher) -> bool {
    &&& framed(a, b)
    &&& b.wf()
    &&& b@.trail == (TrailView { played_moves: b@.trail.played_moves, ..a@.trail })
    &&& b@.effort == a@.effort
    &&& b@.scores == a@.scores
}

/// A picker that has nothing but legal moves to hand out.
pub open spec fn supplies(o: OrderView, p: Position) -> bool {
    &&& o.wf()
    &&& sound(o)
    &&& forall|m: Move| #[trigger] awaits(o, m) ==> legal(p).contains(m)
}

proof fn lemma_contained_playable(p: Position, m: Move)
    requires
        legal(p).contains(m),
    ensures
        playable(p, m),
{
    lemma_legal_playable(p);
    let k = choose|k: int| 0 <= k < legal(p).len() && legal(p)[k] == m;
    assert(playable(p, legal(p)[k]));
}

/// A picker loaded with the legal moves.
fn load_legal(board: &Board, tt_move: Option<Move>, depth: i32, quiescence: bool) -> (r: MoveOrder)
    requires
        -1_000_000 <= depth <= 1_000_000,
    ensures
        r@ == loaded(
            new_order(tt_move, depth as int, quiescence),
            board.pos,
            legal(board.pos),
        ),
        supplies(r@, board.pos),
        0 <= fuel(r@) <= 1_000_000,
{
    let all: Vec<Move> = generate_legal(&board.pos);
    proof {
        lemma_legal_playable(board.pos);
        law_legal_moves_distinct(board.pos);
        law_loaded_moves_await(tt_move, depth as int, quiescence, board.pos, legal(board.pos));
        lemma_legal_count(board.pos);
        lemma_loaded_fuel(tt_move, depth as int, quiescence, board.pos, legal(board.pos));
        assert forall|i: int| 0 <= i < all@.len() implies (#[trigger] all@[i]).wf() by {
            assert(playable(board.pos, legal(board.pos)[i]));
        }
    }
    let mut picker = MoveOrder::new(tt_move, depth, quiescence);
    picker.load(&board.pos, &all);
    picker
}

/// Where a staged quiescence node stands before its moves.
enum RefStand {
    Out(i32),
    On { alpha: i32, eval: i32, best: i32 },
}

spec fn same_stand(a: RefStand, b: Stand) -> bool {
    match (a, b) {
        (RefStand::Out(x), Stand::Out(y)) => x == y,
        (RefStand::On { alpha, eval, best }, Stand::On { alpha: a, eval: e, best: s }) => alpha == a
            && eval == e && best == s,
        _ => false,
    }
}

spec fn q_run_of(
    st: State,
    order: OrderView,
    alpha: i32,
    best: i32,
    best_move: Option<Move>,
    count: u32,
    done: bool,
) -> RefQRun {
    RefQRun {
        st,
        order,
        alpha: alpha as int,
        best: best as int,
        best_move,
        count: count as int,
        done,
    }
}

impl Searcher {
    fn ref_q_enter(&self, board: &Board, in_check: bool, alpha: i32, beta: i32, ply: usize) -> (r:
        RefStand)
        requires
            ready(self, board, alpha as int, beta as int, ply as int),
            in_check == board.pos.in_check(),
        ensures
            same_stand(
                r,
                ref_q_stand(
                    self.setup(*board),
                    self@,
                    board.pos,
                    alpha as int,
                    beta as int,
                    ply as int,
                ),
            ),
            r matches RefStand::Out(v) ==> -SCORE_CAP <= v <= SCORE_CAP,
            r matches RefStand::On { alpha: a, eval, best } ==> {
                &&& ply < 127
                &&& alpha <= a < beta
                &&& -SCORE_CAP <= eval <= SCORE_CAP
                &&& -SCORE_CAP <= best <= SCORE_CAP
            },
    {
        if ply >= MAX_PLY - 1 {
            return RefStand::Out(debug_eval(board, &self.ev, false));
        }
        if self.trail.is_draw(board.hash, board.pos.halfmove) {
            return RefStand::Out(0);
        }
        let a: i32 = imax(alpha, mate_score(ply));
        let b: i32 = imin(beta, -mate_score(ply + 1));
        if a >= b {
            return RefStand::Out(a);
        }
        let entry: Option<TtEntry> = self.tt.probe(board.hash);
        match entry {
            Some(e) => {
                if e.has_bound() {
                    let sc: i32 = score_from_tt(e.score, ply);
                    if is_answer(&e, sc, a, beta) {
                        return RefStand::Out(sc);
                    }
                }
            },
            None => {},
        }
        if in_check {
            return RefStand::On { alpha: a, eval: NO_EVAL, best: -INF };
        }
        let raw: i32 = match eval_of(entry) {
            Some(v) => v,
            None => debug_eval(board, &self.ev, false),
        };
        let best: i32 = sharpen(entry, raw, ply);
        let raised: i32 = imax(a, best);
        if raised >= beta {
            return RefStand::Out(raised);
        }
        RefStand::On { alpha: raised, eval: raw, best }
    }

    fn ref_q_child(
        &mut self,
        board: &mut Board,
        mv: &Move,
        alpha: i32,
        beta: i32,
        ply: usize,
    ) -> (r: i32)
        requires
            ready(&*old(self), &*old(board), alpha as int, beta as int, ply as int),
            ply < 127,
            playable(old(board).pos, *mv),
        ensures
            *final(board) == *old(board),
            calm_but_moves(&*old(self), &*final(self)),
            -SCORE_CAP <= r <= SCORE_CAP,
            ({
                let full = ref_q_child_s(
                    old(self).setup(*old(board)),
                    old(board).pos,
                    old(self)@,
                    *mv,
                    alpha as int,
                    beta as int,
                    ply as int,
                );
                &&& halted(&*old(self), &*final(self), full.0.nodes, false)
                &&& !final(self).stopped ==> (final(self)@, r as int) == full
            }),
        decreases 128 - ply, 0int, 0int,
    {
        let ghost c = self.setup(*board);
        let ghost p = board.pos;
        let ghost st = self@;
        self.trail.set_move(ply, *mv);
        let undo = board.make_move(mv, &mut self.ev);
        self.trail.push_key(board.hash);
        let v: i32 = self.quiescence_ref(board, -beta, -alpha, ply + 1);
        self.trail.pop_key();
        board.unmake_move(mv, &undo);
        proof {
            lemma_ref_q_child(c, p, st, *mv, alpha as int, beta as int, ply as int);
            assert(self@.trail.keys =~= st.trail.keys);
        }
        -v
    }

    /// Quiescence, with the moves handed out in stages.
    pub fn quiescence_ref(&mut self, board: &mut Board, alpha: i32, beta: i32, ply: usize) -> (r:
        i32)
        requires
            ready(&*old(self), &*old(board), alpha as int, beta as int, ply as int),
        ensures
            *final(board) == *old(board),
            calm_but_moves(&*old(self), &*final(self)),
            -SCORE_CAP <= r <= SCORE_CAP,
            counted_on(&*old(self), &*final(self)),
            ({
                let full = ref_quiesce_s(
                    old(self).setup(*old(board)),
                    old(self)@,
                    old(board).pos,
                    alpha as int,
                    beta as int,
                    ply as int,
                );
                &&& halted(&*old(self), &*final(self), full.0.nodes, false)
                &&& !final(self).stopped ==> (final(self)@, r as int) == full
            }),
        decreases 128 - ply, 2int, 0int,
    {
        let ghost c = self.setup(*board);
        let ghost p = board.pos;
        proof {
            lemma_ref_quiesce(c, self@, p, alpha as int, beta as int, ply as int);
            lemma_ref_quiesce_counts(c, self@, p, alpha as int, beta as int, ply as int);
        }
        let ghost full = ref_quiesce_s(c, self@, p, alpha as int, beta as int, ply as int);
        let ended: bool = self.visit();
        let ghost s0 = self@;
        if ended {
            return 0;
        }
        let in_check: bool = board.in_check();
        let (a, eval, best0): (i32, i32, i32) = match self.ref_q_enter(
            board,
            in_check,
            alpha,
            beta,
            ply,
        ) {
            RefStand::Out(v) => {
                return v;
            },
            RefStand::On { alpha: a, eval, best } => (a, eval, best),
        };
        let mut tt_move: Option<Move> = move_of(self.tt.probe(board.hash));
        match tt_move {
            Some(m) => {
                if !in_check && !m.is_capture() {
                    tt_move = None;
                }
            },
            None => {},
        }
        let slots: Slots = Histories::cont_slots(&self.trail.played_moves, ply);
        let mut picker: MoveOrder = load_legal(board, tt_move, 0, true);
        let ghost run0 = ref_q_start(s0, p, a as int, best0 as int);
        assert(run0 == q_run_of(self@, picker@, a, best0, None, 0, false));
        let mut best: i32 = best0;
        let mut high: i32 = a;
        let mut best_move: Option<Move> = None;
        let mut count: u32 = 0;
        let mut done: bool = false;
        let mut over: bool = false;
        while !done && !over
            invariant
                ply < 127,
                supplies(picker@, p),
                fuel(picker@) >= 0,
                *board == *old(board),
                p == board.pos,
                c == old(self).setup(*old(board)),
                c == self.setup(*board),
                calm_but_moves(&*old(self), &*self),
                ready(&*self, &*board, alpha as int, beta as int, ply as int),
                replies_ok(slots),
                in_check == p.in_check(),
                -SCORE_CAP <= best <= SCORE_CAP,
                -SCORE_CAP <= eval <= SCORE_CAP,
                alpha <= high <= SCORE_CAP,
                !done ==> high < beta,
                best_move matches Some(m) ==> m.wf(),
                count + fuel(picker@) <= 1_000_000,
                !self.stopped,
                old(self).nodes < self.nodes,
                full == ref_quiesce_s(
                    c,
                    old(self)@,
                    p,
                    alpha as int,
                    beta as int,
                    ply as int,
                ),
                full.0.nodes == ref_q_loop_s(
                    c,
                    p,
                    run0,
                    slots,
                    beta as int,
                    ply as int,
                ).st.nodes,
                !over ==> ref_q_loop_s(
                    c,
                    p,
                    run0,
                    slots,
                    beta as int,
                    ply as int,
                ) == ref_q_loop_s(
                    c,
                    p,
                    q_run_of(self@, picker@, high, best, best_move, count, done),
                    slots,
                    beta as int,
                    ply as int,
                ),
                over ==> ref_q_loop_s(
                    c,
                    p,
                    run0,
                    slots,
                    beta as int,
                    ply as int,
                ) == q_run_of(self@, picker@, high, best, best_move, count, done),
            decreases fuel(picker@), (if over { 0int } else { 1 }),
        {
            let ghost r0 = q_run_of(self@, picker@, high, best, best_move, count, done);
            let ghost o0 = picker@;
            proof {
                lemma_ref_q_loop(c, p, r0, slots, beta as int, ply as int);
                lemma_ref_q_loop_counts(c, p, r0, slots, beta as int, ply as int);
                law_each_move_once(picker@, p, self@.refs, slots, ply as int);
                lemma_next_uses(picker@, p, self@.refs, slots, ply as int);
            }
            match picker.next_move(board, &self.ref_hist, &slots, ply) {
                None => {
                    over = true;
                },
                Some(mv) => {
                    proof {
                        assert(awaits(o0, mv));
                        lemma_contained_playable(p, mv);
                        assert forall|m: Move| #[trigger] awaits(picker@, m) implies legal(
                            p,
                        ).contains(m) by {
                            assert(awaits(o0, m));
                        }
                    }
                    count = count + 1;
                    let ghost r1 = q_run_of(self@, picker@, high, best, best_move, count, done);
                    if in_check || see_ge(&board.pos, &mv, 0) {
                        let score: i32 = self.ref_q_child(board, &mv, high, beta, ply);
                        if self.stopped {
                            return 0;
                        }
                        let ghost taken = ref_q_absorbed(
                            RefQRun { st: self@, ..r1 },
                            mv,
                            score as int,
                            beta as int,
                        );
                        if score > best {
                            best = score;
                            if score > high {
                                high = score;
                                best_move = Some(mv);
                                if high >= beta {
                                    done = true;
                                }
                            }
                        }
                        assert(q_run_of(self@, picker@, high, best, best_move, count, done)
                            =~= taken);
                    }
                },
            }
        }
        proof {
            if !over {
                lemma_ref_q_loop(
                    c,
                    p,
                    q_run_of(self@, picker@, high, best, best_move, count, done),
                    slots,
                    beta as int,
                    ply as int,
                );
            }
        }
        if count == 0 && in_check {
            return mate_score(ply);
        }
        let bound: Bound = bound_of(best, a, beta);
        let se: i16 = if in_check {
            TT_EVAL_NONE
        } else {
            #[verifier::truncate]
            (eval as i16)
        };
        self.tt.store(board.hash, 0, score_to_tt(best, ply), bound, best_move, false, se);
        best
    }
}

// ---------------------------------------------------------------------------
// The full search
// ---------------------------------------------------------------------------
/// A node on a board that can be searched.
pub open spec fn ref_poised(s: &Searcher, b: &Board, n: &Node, alpha: int) -> bool {
    &&& ready(s, b, alpha, n.beta as int, n.ply as int)
    &&& sane(*n)
    &&& n.in_check == b.pos.in_check()
}

/// What a staged node remembers of the moves it has tried.
pub struct RefTried {
    pub alpha: i32,
    pub best: i32,
    pub best_move: Option<Move>,
    pub quiets: Vec<Move>,
    pub count: i32,
    pub done: bool,
}

impl RefTried {
    pub open spec fn wf(&self, beta: int) -> bool {
        &&& -SCORE_CAP <= self.alpha <= SCORE_CAP
        &&& -SCORE_CAP <= self.best <= SCORE_CAP
        &&& !self.done ==> self.alpha < beta
        &&& self.best_move matches Some(m) ==> m.wf()
        &&& all_wf(self.quiets@)
        &&& 0 <= self.count <= 1_000_000
    }
}

pub open spec fn ref_run_of(st: State, order: OrderView, t: &RefTried) -> RefRun {
    RefRun {
        st,
        order,
        alpha: t.alpha as int,
        best: t.best as int,
        best_move: t.best_move,
        quiets: t.quiets@,
        count: t.count as int,
        done: t.done,
    }
}

fn piece_index(p: &Position, mv: &Move) -> (r: usize)
    requires
        mv.wf(),
    ensures
        r == piece_or_pawn(*p, *mv),
        r < 6,
{
    match p.piece_at(mv.from) {
        Some((pt, _)) => pt.idx(),
        None => 0,
    }
}

/// Is this move not worth searching at this depth?
fn passes_over(
    p: &Position,
    n: &Node,
    best: i32,
    alpha: i32,
    mv: &Move,
    score: i32,
    count: i32,
) -> (r: bool)
    requires
        sane(*n),
        mv.wf(),
        -135_000 <= score <= 135_000,
    ensures
        r == ref_skips(
            *p,
            *n,
            best as int,
            alpha as int,
            *mv,
            score as int,
            count as int,
        ),
{
    proof {
        reveal(ref_skips);
    }
    let d: i32 = n.depth;
    assert(0 <= d * d <= 1000 * 1000) by (nonlinear_arith)
        requires
            0 <= d <= 1000,
    ;
    if !(n.ply > 0 && has_pieces(p, p.side) && best > -MATE_IN_MAX) {
        return false;
    }
    if !mv.is_quiet() {
        return d < 10 && !see_ge(p, mv, -140 * d);
    }
    if d < 7 && count > 3 + d * d {
        return true;
    }
    if score < -600 * (d * d) {
        return true;
    }
    proof {
        lemma_tdiv_bound(score as int, 75);
    }
    if !n.in_check && d < 12 && n.raw != NO_EVAL && n.raw + 100 + 150 * d + idiv(score, 75)
        < alpha {
        return true;
    }
    d < 10 && !see_ge(p, mv, -10 * (d + d * d))
}

/// Reverse futility.
fn rfp_of(n: &Node) -> (r: Option<i32>)
    requires
        sane(*n),
    ensures
        same_answer(r, ref_rfp_s(*n)),
        r matches Some(v) ==> -SCORE_CAP <= v <= SCORE_CAP,
{
    if !n.pv_node && n.depth < 9 && !n.in_check && n.excluded.is_none() && iabs(n.sharp)
        < MATE_IN_MAX && n.sharp - 150 * (n.depth - int_of(n.improving)) >= n.beta {
        Some(n.sharp)
    } else {
        None
    }
}

/// The reduction of a late move.
fn reduction_of(n: &Node, mv: &Move, score: i32, count: i32) -> (r: i32)
    requires
        sane(*n),
        -135_000 <= score <= 135_000,
        0 <= count <= 1_000_000,
    ensures
        r == ref_reduction(*n, *mv, score as int, count as int),
        -200_000 <= r <= 200_000,
{
    let a: i32 = ilog2i(count);
    let b: i32 = ilog2i(n.depth);
    let h: i32 = idiv(score + 15000, 30000);
    proof {
        lemma_tdiv_bound(score + 15000, 30000);
    }
    a / 2 + b / 2 - int_of(!mv.is_quiet() || n.pv_node) - h + 2 * int_of(n.cut_node) + 1
}

impl Searcher {
    fn ref_gate(&self, board: &Board, alpha: i32, beta: i32, ply: usize) -> (r: (Option<i32>, i32))
        requires
            ready(self, board, alpha as int, beta as int, ply as int),
        ensures
            ({
                let (out, a) = ref_gate_s(
                    self.setup(*board),
                    self@,
                    board.pos,
                    alpha as int,
                    beta as int,
                    ply as int,
                );
                &&& same_answer(r.0, out)
                &&& r.1 == a
            }),
            r.0 matches Some(v) ==> -SCORE_CAP <= v <= SCORE_CAP,
            r.0 is None ==> alpha <= r.1 < beta && ply < 127,
    {
        if ply == 0 {
            return (None, alpha);
        }
        if self.trail.is_draw(board.hash, board.pos.halfmove) {
            return (Some(0), alpha);
        }
        if ply >= MAX_PLY - 1 {
            return (Some(debug_eval(board, &self.ev, false)), alpha);
        }
        let a: i32 = imax(alpha, mate_score(ply));
        let b: i32 = imin(beta, -mate_score(ply + 1));
        if a >= b {
            (Some(a), a)
        } else {
            (None, a)
        }
    }

    fn ref_hit(
        &self,
        p: &Position,
        entry: Option<TtEntry>,
        depth: i32,
        alpha: i32,
        beta: i32,
        ply: usize,
        pv_node: bool,
    ) -> (r: Option<i32>)
        requires
            ply < 128,
            entry matches Some(e) ==> e.wf(),
        ensures
            same_answer(
                r,
                ref_table_cut(
                    *p,
                    entry,
                    depth as int,
                    alpha as int,
                    beta as int,
                    ply as int,
                    pv_node,
                ),
            ),
            r matches Some(v) ==> -SCORE_CAP <= v <= SCORE_CAP,
    {
        match entry {
            Some(e) => {
                if e.has_bound() && !pv_node && e.depth >= depth {
                    let s: i32 = score_from_tt(e.score, ply);
                    if is_answer(&e, s, alpha, beta) && p.halfmove < 90 {
                        return Some(s);
                    }
                }
                None
            },
            None => None,
        }
    }

    /// The node's evaluations.
    fn ref_weigh(&mut self, board: &Board, n: &Node) -> (r: Node)
        requires
            old(self).wf(),
            board.wf(old(self).ev.weights()),
            n.ply < 127,
            n.entry matches Some(e) ==> e.wf(),
        ensures
            final(self).wf(),
            framed(&*old(self), &*final(self)),
            final(self).stopped == old(self).stopped,
            undisturbed(old(self)@.trail, final(self)@.trail, 128),
            final(self)@.trail.played_moves == old(self)@.trail.played_moves,
            final(self)@.effort == old(self)@.effort,
            final(self)@.scores == old(self)@.scores,
            (final(self)@, r) == ref_weighed(
                old(self).setup(*board),
                old(self)@,
                board.pos,
                *n,
            ),
            -SCORE_CAP <= r.raw <= SCORE_CAP,
            -SCORE_CAP <= r.eval <= SCORE_CAP,
            -SCORE_CAP <= r.sharp <= SCORE_CAP,
            r.depth == n.depth && r.beta == n.beta && r.ply == n.ply && r.excluded == n.excluded
                && r.entry == n.entry && r.in_check == n.in_check,
    {
        proof {
            reveal(ref_weighed);
        }
        let mut r: Node = *n;
        if n.in_check {
            self.trail.set_eval(n.ply, NO_EVAL);
            r.raw = NO_EVAL;
            r.eval = NO_EVAL;
            r.sharp = NO_EVAL;
            r.improving = false;
            return r;
        }
        let raw: i32 = match eval_of(n.entry) {
            Some(v) => v,
            None => {
                let v: i32 = debug_eval(board, &self.ev, false);
                self.tt.store_eval_only(
                    board.hash,
                    #[verifier::truncate]
                    (v as i16),
                );
                v
            },
        };
        self.trail.set_eval(n.ply, raw);
        let two: i32 = if n.ply >= 2 {
            self.trail.eval_stack[n.ply - 2]
        } else {
            NO_EVAL
        };
        r.raw = raw;
        r.eval = raw;
        r.sharp = sharpen(n.entry, raw, n.ply);
        r.improving = two != NO_EVAL && raw > two;
        r
    }

    fn ref_can_pass(&self, p: &Position, n: &Node) -> (r: bool)
        requires
            sane(*n),
            self.wf(),
        ensures
            r == ref_null_tries(self@, *p, *n),
    {
        !n.pv_node && !n.in_check && n.excluded.is_none() && n.sharp >= n.beta && n.sharp >= n.raw
            && n.raw >= n.beta - 20 * n.depth - 40 * int_of(n.improving) + 100 && has_pieces(
            p,
            p.side,
        ) && !self.trail.just_passed(n.ply)
    }

    /// Hand the opponent a free move and see whether the position still holds.
    fn ref_null_try(&mut self, board: &mut Board, n: &Node, Ghost(alpha): Ghost<int>) -> (r: Option<
        i32,
    >)
        requires
            ref_poised(&*old(self), &*old(board), n, alpha),
            n.sharp >= n.beta,
        ensures
            *final(board) == *old(board),
            below(&*old(self), &*final(self), n.ply as int),
            r matches Some(v) ==> -SCORE_CAP <= v <= SCORE_CAP,
            ({
                let (s, o) = ref_null_s(
                    old(self).setup(*old(board)),
                    old(self)@,
                    old(board).pos,
                    *n,
                );
                &&& halted(&*old(self), &*final(self), s.nodes, false)
                &&& !final(self).stopped ==> final(self)@ == s && same_answer(r, o)
            }),
        decreases 128 - n.ply, open_node(*n), 1int, 0int,
    {
        let ghost c = self.setup(*board);
        let ghost p = board.pos;
        let ghost st = self@;
        proof {
            lemma_tdiv_bound(n.sharp - n.beta, 200);
        }
        let red: i32 = 4 + imin(idiv(n.sharp - n.beta, 200), 6);
        let nd: i32 = imax(n.depth - red, 0);
        let undo = board.make_null_move();
        assert(board.wf(self.ev.weights()));
        self.trail.push_key(board.hash);
        self.trail.set_null(n.ply, true);
        let v: i32 = self.negamax_ref(
            board,
            nd,
            -n.beta,
            -n.beta + 1,
            n.ply + 1,
            false,
            !n.cut_node,
            None,
        );
        self.trail.set_null(n.ply, false);
        self.trail.pop_key();
        board.unmake_null_move(&undo);
        proof {
            lemma_ref_null(c, st, p, *n);
            assert(self@.trail.keys =~= st.trail.keys);
        }
        let score: i32 = -v;
        if score >= n.beta {
            if is_mate(score) {
                Some(n.beta)
            } else {
                Some(score)
            }
        } else {
            None
        }
    }

    /// Search every other move against a window just below the table's score.
    fn ref_singular(
        &mut self,
        board: &mut Board,
        n: &Node,
        mv: Move,
        Ghost(alpha): Ghost<int>,
    ) -> (r: Sing)
        requires
            ref_poised(&*old(self), &*old(board), n, alpha),
            headed(old(self)@.trail, old(board).pos, n.ply as int),
            mv.wf(),
        ensures
            *final(board) == *old(board),
            framed(&*old(self), &*final(self)),
            final(self).wf(),
            undisturbed(old(self)@.trail, final(self)@.trail, n.ply as int),
            headed(final(self)@.trail, old(board).pos, n.ply as int),
            final(self)@.effort == old(self)@.effort,
            final(self)@.scores == old(self)@.scores,
            r matches Sing::Return(v) ==> -SCORE_CAP <= v <= SCORE_CAP,
            r matches Sing::Extend(x) ==> 0 <= x <= 2,
            ({
                let (s, o) = ref_singular_s(
                    old(self).setup(*old(board)),
                    old(self)@,
                    old(board).pos,
                    *n,
                    mv,
                );
                &&& halted(&*old(self), &*final(self), s.nodes, false)
                &&& !final(self).stopped ==> final(self)@ == s && same_sing(r, o)
            }),
        decreases 128 - n.ply, open_node(*n), 1int, 0int,
    {
        let ghost c = self.setup(*board);
        let ghost p = board.pos;
        proof {
            lemma_ref_singular(c, self@, p, *n, mv);
        }
        if n.ply == 0 || n.excluded.is_some() || n.depth <= 4 {
            return Sing::Extend(0);
        }
        let e: TtEntry = match n.entry {
            Some(e) => e,
            None => {
                return Sing::Extend(0);
            },
        };
        let floor: bool = match e.bound {
            Bound::Lower => true,
            Bound::Exact => true,
            _ => false,
        };
        if Some(mv) != e.best || !floor || e.depth < n.depth - 3 {
            return Sing::Extend(0);
        }
        let ts: i32 = score_from_tt(e.score, n.ply);
        if is_mate(ts) {
            return Sing::Extend(0);
        }
        assert(ref_singular_tries(*n, mv) == Some(ts as int));
        let target: i32 = ts - 2 * n.depth;
        let s: i32 = self.negamax_ref(
            board,
            idiv(n.depth - 1, 2),
            target - 1,
            target,
            n.ply,
            false,
            n.cut_node,
            Some(mv),
        );
        if s < target {
            if !n.pv_node && s < target - 40 && (n.ply as i32) < n.depth {
                Sing::Extend(2)
            } else {
                Sing::Extend(1)
            }
        } else if !n.pv_node && target >= n.beta {
            Sing::Return(target)
        } else {
            Sing::Extend(0)
        }
    }

    /// Search a child, on the board after the move.
    fn ref_child(
        &mut self,
        board: &mut Board,
        n: &Node,
        mv: &Move,
        alpha: i32,
        d: i32,
        score: i32,
        count: i32,
    ) -> (r: (i32, bool))
        requires
            ready(&*old(self), &*old(board), alpha as int, n.beta as int, n.ply as int),
            sane(*n),
            n.depth <= d <= n.depth + 2,
            -135_000 <= score <= 135_000,
            0 < count <= 1_000_000,
        ensures
            *final(board) == *old(board),
            below(&*old(self), &*final(self), n.ply as int),
            -SCORE_CAP <= r.0 <= SCORE_CAP,
            ({
                let full = ref_child_s(
                    old(self).setup(*old(board)),
                    old(self)@,
                    old(board).pos,
                    *n,
                    *mv,
                    alpha as int,
                    d as int,
                    score as int,
                    count as int,
                );
                &&& halted(&*old(self), &*final(self), full.0.nodes, false)
                &&& !final(self).stopped ==> (final(self)@, r.0 as int, r.1) == full
            }),
        decreases 128 - n.ply, open_node(*n), 1int, 0int,
    {
        proof {
            reveal(ref_child_s);
            reveal(ref_s);
            lemma_ref_child_counts(
                self.setup(*board),
                self@,
                board.pos,
                *n,
                *mv,
                alpha as int,
                d as int,
                score as int,
                count as int,
            );
        }
        let late: bool = n.depth > 2 && count > 1 + 2 * int_of(n.ply == 0) && (!n.pv_node
            || mv.is_quiet());
        let mut v: i32 = INF;
        let mut full: bool = !(n.pv_node && count == 1);
        if late {
            let r: i32 = reduction_of(n, mv, score, count);
            let nd: i32 = iclamp(d - r - 1, 0, d - 1);
            v = self.negamax_ref(board, nd, -alpha - 1, -alpha, n.ply + 1, false, true, None);
            full = -v > alpha && r > 0;
        }
        if full {
            v = self.negamax_ref(
                board,
                d - 1,
                -alpha - 1,
                -alpha,
                n.ply + 1,
                false,
                !n.cut_node,
                None,
            );
        }
        if n.pv_node && (count == 1 || (-v > alpha && (n.ply == 0 || -v < n.beta))) {
            v = self.negamax_ref(board, d - 1, -n.beta, -alpha, n.ply + 1, true, false, None);
        }
        (-v, late && full)
    }

    /// Play a move, search what it leads to, and take it back.
    fn ref_descend(
        &mut self,
        board: &mut Board,
        n: &Node,
        mv: Move,
        alpha: i32,
        ext: i32,
        score: i32,
        count: i32,
    ) -> (r: (i32, bool))
        requires
            ref_poised(&*old(self), &*old(board), n, alpha as int),
            playable(old(board).pos, mv),
            headed(old(self)@.trail, old(board).pos, n.ply as int),
            0 <= ext <= 2,
            -135_000 <= score <= 135_000,
            0 < count <= 1_000_000,
        ensures
            *final(board) == *old(board),
            below(&*old(self), &*final(self), n.ply as int),
            headed(final(self)@.trail, old(board).pos, n.ply as int),
            -SCORE_CAP <= r.0 <= SCORE_CAP,
            ({
                let full = ref_tried_s(
                    old(self).setup(*old(board)),
                    old(board).pos,
                    *n,
                    old(self)@,
                    mv,
                    alpha as int,
                    ext as int,
                    score as int,
                    count as int,
                );
                &&& halted(&*old(self), &*final(self), full.0.nodes, false)
                &&& !final(self).stopped ==> (final(self)@, r.0 as int, r.1) == full
            }),
        decreases 128 - n.ply, open_node(*n), 2int, 0int,
    {
        let ghost c = self.setup(*board);
        let ghost p = board.pos;
        let ghost st = self@;
        proof {
            lemma_ref_tried(
                c,
                p,
                *n,
                st,
                mv,
                alpha as int,
                ext as int,
                score as int,
                count as int,
            );
        }
        self.trail.set_move(n.ply, mv);
        let undo = board.make_move(&mv, &mut self.ev);
        self.trail.push_key(board.hash);
        let ghost s0 = self@;
        let extension: i32 = if board.in_check() && n.raw != NO_EVAL && iabs(n.raw) > 75 {
            1
        } else {
            ext
        };
        let d: i32 = n.depth + extension;
        let r: (i32, bool) = self.ref_child(board, n, &mv, alpha, d, score, count);
        let ghost s1 = self@;
        self.trail.pop_key();
        board.unmake_move(&mv, &undo);
        proof {
            assert(self@.trail.keys =~= st.trail.keys);
            lemma_same_above(s1.trail, s0.trail, n.ply + 1, n.ply as int);
        }
        r
    }

    /// Take a move's score in.
    fn ref_absorb(
        &mut self,
        Ghost(order): Ghost<OrderView>,
        p: &Position,
        n: &Node,
        t: &mut RefTried,
        mv: Move,
        score: i32,
    )
        requires
            old(self).wf(),
            sane(*n),
            old(t).wf(n.beta as int),
            !old(t).done,
            mv.wf(),
            legal(*p).contains(mv),
            -SCORE_CAP <= score <= SCORE_CAP,
            headed(old(self)@.trail, *p, n.ply as int),
        ensures
            searched(&*old(self), &*final(self), *p, n.ply as int),
            final(self).stopped == old(self).stopped,
            final(self)@.effort == old(self)@.effort,
            final(self)@.scores == old(self)@.scores,
            final(t).wf(n.beta as int),
            old(t).alpha <= final(t).alpha,
            final(t).count == old(t).count,
            ref_run_of(final(self)@, order, &*final(t)) == ref_absorbed(
                *n,
                ref_run_of(old(self)@, order, &*old(t)),
                mv,
                score as int,
            ),
    {
        let ghost r0 = ref_run_of(self@, order, &*t);
        if score > t.best {
            t.best = score;
            if score > t.alpha {
                t.alpha = score;
                t.best_move = Some(mv);
                self.trail.update_pv(n.ply, mv);
                proof {
                    crate::trail::law_line_extends(old(self)@.trail, n.ply as int, mv);
                }
                if score >= n.beta {
                    t.done = true;
                    assert(ref_run_of(self@, order, &*t) =~= ref_absorbed(
                        *n,
                        r0,
                        mv,
                        score as int,
                    ));
                    return;
                }
            }
        }
        if mv.is_quiet() {
            t.quiets.push(mv);
        }
        assert(ref_run_of(self@, order, &*t) =~= ref_absorbed(*n, r0, mv, score as int));
    }

    fn ref_credit_again(&mut self, p: &Position, n: &Node, mv: Move, slots: &Slots, better: bool)
        requires
            old(self).wf(),
            sane(*n),
            mv.wf(),
            replies_ok(*slots),
        ensures
            final(self).wf(),
            framed(&*old(self), &*final(self)),
            final(self).stopped == old(self).stopped,
            final(self)@ == ref_again(old(self)@, *p, *n, mv, *slots, better),
    {
        let bonus: i32 = hist_bonus(n.depth);
        let piece: usize = piece_index(p, &mv);
        proof {
            reveal(crate::histories::bonus_added);
        }
        self.ref_hist.add_bonus(
            p,
            mv,
            piece,
            slots,
            if better {
                bonus
            } else {
                -bonus
            },
        );
    }

    /// Credit a quiet best move and charge the quiet moves tried.
    fn ref_learn(
        &mut self,
        Ghost(order): Ghost<OrderView>,
        p: &Position,
        n: &Node,
        t: &RefTried,
        slots: &Slots,
    )
        requires
            old(self).wf(),
            sane(*n),
            t.wf(n.beta as int),
            replies_ok(*slots),
        ensures
            final(self).wf(),
            framed(&*old(self), &*final(self)),
            final(self).stopped == old(self).stopped,
            final(self)@ == old(self)@.with_refs(
                ref_learned(
                    old(self)@.refs,
                    *p,
                    *n,
                    ref_run_of(old(self)@, order, t),
                    *slots,
                ),
            ),
    {
        let best: Move = match t.best_move {
            Some(m) => m,
            None => {
                return;
            },
        };
        if !best.is_quiet() {
            return;
        }
        proof {
            reveal(crate::histories::bonus_added);
        }
        let bonus: i32 = hist_bonus(n.depth);
        let piece: usize = piece_index(p, &best);
        self.ref_hist.bestmove(p, best, piece, slots, n.ply, n.depth);
        let ghost mid = self@.refs;
        let mut i: usize = 0;
        while i < t.quiets.len()
            invariant
                i <= t.quiets@.len(),
                all_wf(t.quiets@),
                replies_ok(*slots),
                0 <= bonus <= 4000,
                self.wf(),
                framed(&*old(self), &*self),
                self.stopped == old(self).stopped,
                self@ == old(self)@.with_refs(
                    ref_charged(
                        mid,
                        *p,
                        best,
                        *slots,
                        bonus as int,
                        t.quiets@,
                        i as int,
                    ),
                ),
            decreases t.quiets@.len() - i,
        {
            let q: Move = t.quiets[i];
            assert(t.quiets@[i as int].wf());
            if q != best {
                let qp: usize = piece_index(p, &q);
                proof {
                    reveal(crate::histories::bonus_added);
                }
                self.ref_hist.add_bonus(p, q, qp, slots, -bonus);
            }
            i = i + 1;
        }
    }

    /// The end of a staged node.
    fn ref_finish(
        &mut self,
        Ghost(order): Ghost<OrderView>,
        board: &Board,
        n: &Node,
        t: &RefTried,
        slots: &Slots,
        alpha: i32,
    ) -> (r: i32)
        requires
            old(self).wf(),
            board.hash == hash_s(board.pos),
            sane(*n),
            t.wf(n.beta as int),
            replies_ok(*slots),
        ensures
            final(self).wf(),
            framed(&*old(self), &*final(self)),
            final(self).stopped == old(self).stopped,
            final(self)@.trail == old(self)@.trail,
            final(self)@.effort == old(self)@.effort,
            final(self)@.scores == old(self)@.scores,
            -SCORE_CAP <= r <= SCORE_CAP,
            (final(self)@, r as int) == ref_finished(
                board.pos,
                *n,
                ref_run_of(old(self)@, order, t),
                *slots,
                alpha as int,
            ),
    {
        proof {
            reveal(ref_finished);
        }
        self.ref_learn(Ghost(order), &board.pos, n, t, slots);
        if t.count == 0 {
            if n.excluded.is_some() {
                return t.alpha;
            }
            return if n.in_check {
                mate_score(n.ply)
            } else {
                0
            };
        }
        if n.excluded.is_none() {
            let bound: Bound = if t.best >= n.beta {
                Bound::Lower
            } else if n.pv_node && t.best > alpha {
                Bound::Exact
            } else {
                Bound::Upper
            };
            let se: i16 = if n.in_check {
                TT_EVAL_NONE
            } else {
                #[verifier::truncate]
                (n.raw as i16)
            };
            self.tt.store(
                board.hash,
                n.depth,
                score_to_tt(t.best, n.ply),
                bound,
                t.best_move,
                n.tt_pv,
                se,
            );
        }
        t.best
    }

    /// One move of a staged node, once the picker has handed it out. Returns a
    /// score that ends the node, if there is one.
    fn ref_take(
        &mut self,
        board: &mut Board,
        n: &Node,
        Ghost(order): Ghost<OrderView>,
        t: &mut RefTried,
        mv: Move,
        slots: &Slots,
    ) -> (r: Option<i32>)
        requires
            ref_poised(&*old(self), &*old(board), n, old(t).alpha as int),
            old(t).wf(n.beta as int),
            !old(t).done,
            old(t).count < 1_000_000,
            legal(old(board).pos).contains(mv),
            playable(old(board).pos, mv),
            headed(old(self)@.trail, old(board).pos, n.ply as int),
            Some(mv) != n.excluded,
            replies_ok(*slots),
        ensures
            *final(board) == *old(board),
            searched(&*old(self), &*final(self), old(board).pos, n.ply as int),
            final(t).wf(n.beta as int),
            old(t).alpha <= final(t).alpha,
            final(t).count == old(t).count + 1,
            r matches Some(v) ==> -SCORE_CAP <= v <= SCORE_CAP,
            r is None && !old(self).stopped ==> !final(self).stopped,
            halted(
                &*old(self),
                &*final(self),
                ref_take_nodes(
                    old(self).setup(*old(board)),
                    old(board).pos,
                    *n,
                    old(self)@,
                    mv,
                    old(t).alpha as int,
                    old(t).best as int,
                    old(t).count as int,
                    *slots,
                ),
                false,
            ),
            !final(self).stopped ==> ({
                let c = old(self).setup(*old(board));
                let p = old(board).pos;
                let r0 = ref_run_of(old(self)@, order, &*old(t));
                let r1 = RefRun { count: r0.count + 1, ..r0 };
                let score = move_score_s(r0.st.refs, p, mv, *slots);
                let (s1, sing) = ref_singular_s(c, r0.st, p, *n, mv);
                if ref_skips(p, *n, r0.best, r0.alpha, mv, score, r1.count) {
                    r is None && ref_run_of(final(self)@, order, &*final(t)) == r1
                } else {
                    match sing {
                        Singular::Return(v) => r == Some(v as i32) && r->0 == v && final(self)@
                            == s1,
                        Singular::Extend(ext) => {
                            let (s2, v, again) = ref_tried_s(
                                c,
                                p,
                                *n,
                                s1,
                                mv,
                                r0.alpha,
                                ext,
                                score,
                                r1.count,
                            );
                            let s3 = if again {
                                ref_again(s2, p, *n, mv, *slots, v > r0.best)
                            } else {
                                s2
                            };
                            r is None && ref_run_of(final(self)@, order, &*final(t))
                                == ref_absorbed(*n, RefRun { st: s3, ..r1 }, mv, v)
                        },
                    }
                }
            }),
        decreases 128 - n.ply, open_node(*n), 3int, 0int,
    {
        let ghost c = self.setup(*board);
        let ghost p = board.pos;
        let ghost r0 = ref_run_of(self@, order, &*t);
        proof {
            lemma_ref_take_counts(
                c,
                p,
                *n,
                self@,
                mv,
                t.alpha as int,
                t.best as int,
                t.count as int,
                *slots,
            );
        }
        t.count = t.count + 1;
        let ghost r1 = ref_run_of(self@, order, &*t);
        assert(r1 =~= (RefRun { count: r0.count + 1, ..r0 }));
        let score: i32 = if mv.is_capture() {
            0
        } else {
            self.ref_hist.quiet_score(&board.pos, mv, slots)
        };
        if passes_over(&board.pos, n, t.best, t.alpha, &mv, score, t.count) {
            return None;
        }
        let ext: i32 = match self.ref_singular(board, n, mv, Ghost(t.alpha as int)) {
            Sing::Return(v) => {
                return Some(v);
            },
            Sing::Extend(x) => x,
        };
        if self.stopped {
            return Some(0);
        }
        let ghost mid = self@;
        let (v, again): (i32, bool) = self.ref_descend(
            board,
            n,
            mv,
            t.alpha,
            ext,
            score,
            t.count,
        );
        proof {
            lemma_same_above(self@.trail, mid.trail, n.ply + 1, n.ply as int);
        }
        if self.stopped {
            return Some(0);
        }
        if again {
            let better: bool = v > t.best;
            self.ref_credit_again(&board.pos, n, mv, slots, better);
        }
        assert(ref_run_of(self@, order, &*t) =~= (RefRun { st: self@, ..r1 }));
        self.ref_absorb(Ghost(order), &board.pos, n, t, mv, v);
        None
    }

    /// Try the moves of a staged node as the picker hands them out.
    fn ref_search_moves(&mut self, board: &mut Board, n: &Node, slots: &Slots, alpha: i32) -> (r:
        i32)
        requires
            ref_poised(&*old(self), &*old(board), n, alpha as int),
            headed(old(self)@.trail, old(board).pos, n.ply as int),
            replies_ok(*slots),
        ensures
            *final(board) == *old(board),
            searched(&*old(self), &*final(self), old(board).pos, n.ply as int),
            -SCORE_CAP <= r <= SCORE_CAP,
            ({
                let whole = ref_loop_s(
                    old(self).setup(*old(board)),
                    old(board).pos,
                    *n,
                    ref_start(old(self)@, old(board).pos, *n, alpha as int),
                    *slots,
                );
                &&& halted(&*old(self), &*final(self), ref_loop_nodes(whole), false)
                &&& !final(self).stopped ==> (final(self)@, r as int) == (match whole {
                    RefOutcome::Early(s2, v) => (s2, v),
                    RefOutcome::Done(r) => ref_finished(
                        old(board).pos,
                        *n,
                        r,
                        *slots,
                        alpha as int,
                    ),
                })
            }),
        decreases 128 - n.ply, open_node(*n), 4int, 0int,
    {
        let ghost c = self.setup(*board);
        let ghost p = board.pos;
        let ghost st = self@;
        let mut picker: MoveOrder = load_legal(board, move_of(n.entry), n.depth, false);
        let mut t = RefTried {
            alpha,
            best: -INF,
            best_move: None,
            quiets: Vec::new(),
            count: 0,
            done: false,
        };
        let ghost run0 = ref_start(st, p, *n, alpha as int);
        assert(ref_run_of(self@, picker@, &t) =~= run0);
        let mut over: bool = false;
        while !t.done && !over
            invariant
                supplies(picker@, p),
                fuel(picker@) >= 0,
                *board == *old(board),
                p == board.pos,
                st == old(self)@,
                run0 == ref_start(st, p, *n, alpha as int),
                c == old(self).setup(*old(board)),
                c == self.setup(*board),
                searched(&*old(self), &*self, p, n.ply as int),
                ref_poised(&*old(self), &*old(board), n, alpha as int),
                t.wf(n.beta as int),
                alpha <= t.alpha,
                replies_ok(*slots),
                t.count + fuel(picker@) <= 1_000_000,
                !old(self).stopped ==> !self.stopped,
                !self.stopped && !over ==> ref_loop_s(c, p, *n, run0, *slots) == ref_loop_s(
                    c,
                    p,
                    *n,
                    ref_run_of(self@, picker@, &t),
                    *slots,
                ),
                !self.stopped && over ==> ref_loop_s(c, p, *n, run0, *slots) == RefOutcome::Done(
                    ref_run_of(self@, picker@, &t),
                ),
            decreases fuel(picker@), (if over { 0int } else { 1 }),
        {
            let ghost o0 = picker@;
            proof {
                lemma_ref_loop(c, p, *n, ref_run_of(self@, picker@, &t), *slots);
                lemma_ref_loop_counts(c, p, *n, ref_run_of(self@, picker@, &t), *slots);
                law_each_move_once(picker@, p, self@.refs, *slots, n.ply as int);
                lemma_next_uses(picker@, p, self@.refs, *slots, n.ply as int);
            }
            match picker.next_move(board, &self.ref_hist, slots, n.ply) {
                None => {
                    over = true;
                },
                Some(mv) => {
                    proof {
                        assert(awaits(o0, mv));
                        lemma_contained_playable(p, mv);
                        assert forall|m: Move| #[trigger] awaits(picker@, m) implies legal(
                            p,
                        ).contains(m) by {
                            assert(awaits(o0, m));
                        }
                    }
                    if Some(mv) != n.excluded {
                        match self.ref_take(board, n, Ghost(picker@), &mut t, mv, slots) {
                            Some(v) => {
                                if self.stopped {
                                    return 0;
                                }
                                return v;
                            },
                            None => {},
                        }
                    }
                },
            }
        }
        proof {
            if !over {
                lemma_ref_loop(c, p, *n, ref_run_of(self@, picker@, &t), *slots);
            }
        }
        self.ref_finish(Ghost(picker@), board, n, &t, slots, alpha)
    }

    /// A staged node past its table entry and its evaluation.
    fn ref_interior(&mut self, board: &mut Board, n: &Node, slots: &Slots, alpha: i32) -> (r: i32)
        requires
            ref_poised(&*old(self), &*old(board), n, alpha as int),
            headed(old(self)@.trail, old(board).pos, n.ply as int),
            replies_ok(*slots),
        ensures
            *final(board) == *old(board),
            searched(&*old(self), &*final(self), old(board).pos, n.ply as int),
            -SCORE_CAP <= r <= SCORE_CAP,
            ({
                let full = ref_interior_s(
                    old(self).setup(*old(board)),
                    old(self)@,
                    old(board).pos,
                    *n,
                    *slots,
                    alpha as int,
                );
                &&& halted(&*old(self), &*final(self), full.0.nodes, false)
                &&& !final(self).stopped ==> (final(self)@, r as int) == full
            }),
        decreases 128 - n.ply, open_node(*n), 5int, 0int,
    {
        let ghost c = self.setup(*board);
        let ghost p = board.pos;
        proof {
            lemma_ref_interior(c, self@, p, *n, *slots, alpha as int);
            lemma_ref_interior_counts(c, self@, p, *n, *slots, alpha as int);
        }
        match rfp_of(n) {
            Some(v) => {
                return v;
            },
            None => {},
        }
        if self.ref_can_pass(&board.pos, n) {
            let cut: Option<i32> = self.ref_null_try(board, n, Ghost(alpha as int));
            proof {
                lemma_same_above(self@.trail, old(self)@.trail, n.ply + 1, n.ply as int);
            }
            match cut {
                Some(v) => {
                    return v;
                },
                None => {},
            }
        }
        let mut m: Node = *n;
        if n.ply > 0 && n.pv_node && !n.in_check && move_of(n.entry).is_none() {
            m.depth = n.depth - 2;
        }
        if m.depth <= 0 {
            return self.quiescence_ref(board, alpha, n.beta, n.ply);
        }
        proof {
            let whole = ref_loop_s(c, p, m, ref_start(self@, p, m, alpha as int), *slots);
            if let RefOutcome::Done(r) = whole {
                lemma_ref_finished_counts(p, m, r, *slots, alpha as int);
            }
        }
        self.ref_search_moves(board, &m, slots, alpha)
    }

    /// A staged node whose own count is in, and whose line is empty.
    fn ref_entered(
        &mut self,
        board: &mut Board,
        depth: i32,
        alpha: i32,
        beta: i32,
        ply: usize,
        pv_node: bool,
        cut_node: bool,
        excluded: Option<Move>,
    ) -> (r: i32)
        requires
            ready(&*old(self), &*old(board), alpha as int, beta as int, ply as int),
            0 < depth,
            depth_ok(depth as int, ply as int),
            old(self)@.trail.pv_len[ply as int] == 0,
        ensures
            *final(board) == *old(board),
            searched(&*old(self), &*final(self), old(board).pos, ply as int),
            -SCORE_CAP <= r <= SCORE_CAP,
            ({
                let full = ref_entered_s(
                    old(self).setup(*old(board)),
                    old(self)@,
                    old(board).pos,
                    depth as int,
                    alpha as int,
                    beta as int,
                    ply as int,
                    pv_node,
                    cut_node,
                    excluded,
                );
                &&& halted(&*old(self), &*final(self), full.0.nodes, false)
                &&& !final(self).stopped ==> (final(self)@, r as int) == full
            }),
        decreases 128 - ply, (if excluded is None { 1int } else { 0 }), 6int, 0int,
    {
        let ghost p = board.pos;
        proof {
            lemma_ref_entered(
                self.setup(*board),
                self@,
                p,
                depth as int,
                alpha as int,
                beta as int,
                ply as int,
                pv_node,
                cut_node,
                excluded,
            );
        }
        let (out, a): (Option<i32>, i32) = self.ref_gate(board, alpha, beta, ply);
        match out {
            Some(v) => {
                return v;
            },
            None => {},
        }
        let slots: Slots = Histories::cont_slots(&self.trail.played_moves, ply);
        let entry: Option<TtEntry> = if excluded.is_some() {
            None
        } else {
            self.tt.probe(board.hash)
        };
        match self.ref_hit(&board.pos, entry, depth, a, beta, ply, pv_node) {
            Some(v) => {
                return v;
            },
            None => {},
        }
        let seen: bool = match entry {
            Some(e) => e.pv,
            None => false,
        };
        let n0 = Node {
            depth,
            beta,
            ply,
            pv_node,
            cut_node,
            excluded,
            in_check: board.in_check(),
            entry,
            tt_pv: pv_node || seen,
            raw: 0,
            eval: 0,
            sharp: 0,
            improving: false,
        };
        assert(n0 == ref_node_of(
            self@,
            p,
            depth as int,
            beta as int,
            ply as int,
            pv_node,
            cut_node,
            excluded,
        ));
        let ghost s1 = self@;
        let n: Node = self.ref_weigh(board, &n0);
        proof {
            lemma_same_above(self@.trail, s1.trail, 128, ply as int);
        }
        self.ref_interior(board, &n, &slots, a)
    }

    /// One node of the staged search.
    pub fn negamax_ref(
        &mut self,
        board: &mut Board,
        depth: i32,
        alpha: i32,
        beta: i32,
        ply: usize,
        pv_node: bool,
        cut_node: bool,
        excluded: Option<Move>,
    ) -> (r: i32)
        requires
            ready(&*old(self), &*old(board), alpha as int, beta as int, ply as int),
            depth_ok(depth as int, ply as int),
        ensures
            *final(board) == *old(board),
            searched(&*old(self), &*final(self), old(board).pos, ply as int),
            -SCORE_CAP <= r <= SCORE_CAP,
            counted_on(&*old(self), &*final(self)),
            ({
                let full = ref_s(
                    old(self).setup(*old(board)),
                    old(self)@,
                    old(board).pos,
                    depth as int,
                    alpha as int,
                    beta as int,
                    ply as int,
                    pv_node,
                    cut_node,
                    excluded,
                );
                &&& halted(&*old(self), &*final(self), full.0.nodes, false)
                &&& !final(self).stopped ==> (final(self)@, r as int) == full
            }),
        decreases 128 - ply, (if excluded is None { 1int } else { 0 }), 7int, 0int,
    {
        let ghost c = self.setup(*board);
        let ghost p = board.pos;
        proof {
            lemma_ref(
                c,
                self@,
                p,
                depth as int,
                alpha as int,
                beta as int,
                ply as int,
                pv_node,
                cut_node,
                excluded,
            );
            lemma_ref_counts(
                c,
                self@,
                p,
                depth as int,
                alpha as int,
                beta as int,
                ply as int,
                pv_node,
                cut_node,
                excluded,
            );
            lemma_without_line(self@.trail, ply as int);
        }
        self.trail.clear_line(ply);
        if depth <= 0 {
            return self.quiescence_ref(board, alpha, beta, ply);
        }
        if self.visit() {
            return 0;
        }
        self.ref_entered(board, depth, alpha, beta, ply, pv_node, cut_node, excluded)
    }
}

}
