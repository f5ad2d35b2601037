//! The quiescence search.
use vstd::prelude::*;
use crate::board::{hash_s, Board};
use crate::moves::{Move, MoveFlag};
use crate::movegen::{
    generate_legal, generate_legal_caps, legal, lemma_caps_playable, lemma_legal_playable,
};
use crate::nnue::SCORE_CAP;
use crate::node::{
    answers, bound_s, gain_s, q_absorbed, q_loop_s, q_skips, q_stand, q_tried_s, lemma_q_loop,
    lemma_q_tried, lemma_quiesce, lemma_quiesce_counts, lemma_q_loop_counts, quiesce_s, sharpened,
    stored_eval, table_move, QRun, Stand, NO_EVAL,
};
use crate::num::iabs;
use crate::position::{after, playable, Position};
use crate::rank::{score_moves, Ranked};
use crate::score::{
    debug_eval, mate_score, score_from_tt, score_to_tt, value_in_eval_units, INF, MATE_IN_MAX,
    MAX_PLY,
};
use crate::searcher::{framed, counted_on, halted, ready, Searcher};
use crate::see::see_ge;
use crate::tt::{Bound, TtEntry, TT_EVAL_NONE};
use crate::types::PieceType;

verus! {

/// Does a stored score answer this window?
pub fn is_answer(e: &TtEntry, s: i32, alpha: i32, beta: i32) -> (r: bool)
    ensures
        r == answers(*e, s as int, alpha as int, beta as int),
{
    match e.bound {
        Bound::Exact => true,
        Bound::Lower => s >= beta,
        Bound::Upper => s <= alpha,
        Bound::NoBound => false,
    }
}

/// The evaluation, improved by what the table already knows.
pub fn sharpen(entry: Option<TtEntry>, eval: i32, ply: usize) -> (r: i32)
    requires
        ply < 128,
        entry matches Some(e) ==> e.wf(),
        -SCORE_CAP <= eval <= SCORE_CAP,
    ensures
        r == sharpened(entry, eval as int, ply as int),
        -SCORE_CAP <= r <= SCORE_CAP,
{
    match entry {
        Some(e) => {
            if !e.has_bound() {
                return eval;
            }
            let ts: i32 = score_from_tt(e.score, ply);
            let better: bool = match e.bound {
                Bound::Exact => true,
                Bound::Lower => ts > eval,
                Bound::Upper => ts < eval,
                Bound::NoBound => false,
            };
            if better {
                ts
            } else {
                eval
            }
        },
        None => eval,
    }
}

pub fn move_of(entry: Option<TtEntry>) -> (r: Option<Move>)
    ensures
        r == table_move(entry),
{
    match entry {
        Some(e) => e.best,
        None => None,
    }
}

/// The evaluation already in the table, if there is one.
pub fn eval_of(entry: Option<TtEntry>) -> (r: Option<i32>)
    ensures
        r is Some == stored_eval(entry) is Some,
        r matches Some(v) ==> stored_eval(entry) == Some(v as int) && -32768 < v <= 32767,
{
    match entry {
        Some(e) => if e.static_eval != TT_EVAL_NONE {
            Some(e.static_eval as i32)
        } else {
            None
        },
        None => None,
    }
}

/// What a result means to the window it was found in.
pub fn bound_of(best: i32, alpha: i32, beta: i32) -> (r: Bound)
    ensures
        r == bound_s(best as int, alpha as int, beta as int),
{
    if best >= beta {
        Bound::Lower
    } else if best > alpha {
        Bound::Exact
    } else {
        Bound::Upper
    }
}

/// What a capture wins at once, in the network's units.
fn gain_of(p: &Position, mv: &Move) -> (r: i32)
    requires
        mv.wf(),
    ensures
        r == gain_s(*p, *mv),
        -200 <= r <= 80_000,
{
    let taken: i32 = if mv.flag == MoveFlag::EnPassant {
        value_in_eval_units(PieceType::Pawn)
    } else {
        match p.piece_at(mv.to) {
            Some((pt, _)) => value_in_eval_units(pt),
            None => 0,
        }
    };
    let promo: i32 = match mv.promotion {
        Some(pt) => value_in_eval_units(pt) - value_in_eval_units(PieceType::Pawn),
        None => 0,
    };
    taken + promo
}

/// Where a quiescence node stands before its moves.
enum QStand {
    Out(i32),
    On { alpha: i32, eval: i32, best: i32 },
}

spec fn same_stand(a: QStand, b: Stand) -> bool {
    match (a, b) {
        (QStand::Out(x), Stand::Out(y)) => x == y,
        (QStand::On { alpha, eval, best }, Stand::On { alpha: a, eval: e, best: s }) => alpha == a
            && eval == e && best == s,
        _ => false,
    }
}

/// A quiescence node part way through its moves.
spec fn run_of(
    s: &Searcher,
    list: Ranked,
    alpha: i32,
    best: i32,
    best_move: Option<Move>,
    done: bool,
) -> QRun {
    QRun { st: s@, list: list@, alpha: alpha as int, best: best as int, best_move, done }
}

/// What a quiescence call leaves alone: everything but the tables, and of the
/// trail everything.
pub open spec fn calm(a: &Searcher, b: &Searcher) -> bool {
    &&& framed(a, b)
    &&& b.wf()
    &&& b@.trail == a@.trail
    &&& b@.effort == a@.effort
    &&& b@.scores == a@.scores
}

impl Searcher {
    fn q_enter(&self, board: &Board, in_check: bool, alpha: i32, beta: i32, ply: usize) -> (r:
        QStand)
        requires
            ready(self, board, alpha as int, beta as int, ply as int),
            in_check == board.pos.in_check(),
        ensures
            same_stand(
                r,
                q_stand(
                    self.setup(*board),
                    self@,
                    board.pos,
                    alpha as int,
                    beta as int,
                    ply as int,
                ),
            ),
            r matches QStand::Out(v) ==> -SCORE_CAP <= v <= SCORE_CAP,
            r matches QStand::On { alpha: a, eval, best } ==> {
                &&& ply < 127
                &&& alpha <= a < beta
                &&& -SCORE_CAP <= eval <= SCORE_CAP
                &&& -SCORE_CAP <= best <= SCORE_CAP
                &&& in_check ==> legal(board.pos).len() > 0
            },
    {
        let fade: bool = self.features.rule50_fade;
        if ply >= MAX_PLY - 1 {
            return QStand::Out(debug_eval(board, &self.ev, fade));
        }
        if self.trail.is_draw(board.hash, board.pos.halfmove) {
            return QStand::Out(self.draw_score(ply));
        }
        let entry: Option<TtEntry> = self.tt.probe(board.hash);
        match entry {
            Some(e) => {
                if e.has_bound() {
                    let sc: i32 = score_from_tt(e.score, ply);
                    if is_answer(&e, sc, alpha, beta) {
                        return QStand::Out(sc);
                    }
                }
            },
            None => {},
        }
        if in_check {
            let moves: Vec<Move> = generate_legal(&board.pos);
            if moves.len() == 0 {
                return QStand::Out(mate_score(ply));
            }
            return QStand::On { alpha, eval: NO_EVAL, best: -INF };
        }
        let eval: i32 = match eval_of(entry) {
            Some(v) => v,
            None => debug_eval(board, &self.ev, fade),
        };
        let floor: i32 = sharpen(entry, eval, ply);
        if floor >= beta {
            return QStand::Out(floor);
        }
        let raised: i32 = if floor > alpha {
            floor
        } else {
            alpha
        };
        QStand::On { alpha: raised, eval, best: floor }
    }

    /// Is this quiescence move not worth playing?
    fn q_passes_over(
        &self,
        board: &Board,
        in_check: bool,
        eval: i32,
        best: i32,
        alpha: i32,
        mv: &Move,
    ) -> (r: bool)
        requires
            mv.wf(),
            -SCORE_CAP <= eval <= SCORE_CAP,
            -SCORE_CAP <= best <= SCORE_CAP,
        ensures
            r == q_skips(
                self.setup(*board),
                board.pos,
                in_check,
                eval as int,
                best as int,
                alpha as int,
                *mv,
            ),
    {
        if in_check {
            return false;
        }
        if !see_ge(&board.pos, mv, 0) {
            return true;
        }
        self.features.qs_futility && iabs(best) < MATE_IN_MAX && eval != NO_EVAL && eval + gain_of(
            &board.pos,
            mv,
        ) + 200 <= alpha
    }

    fn q_try(&mut self, board: &mut Board, mv: &Move, alpha: i32, beta: i32, ply: usize) -> (r: i32)
        requires
            ready(&*old(self), &*old(board), alpha as int, beta as int, ply as int),
            ply < 127,
            playable(old(board).pos, *mv),
        ensures
            *final(board) == *old(board),
            calm(&*old(self), &*final(self)),
            -SCORE_CAP <= r <= SCORE_CAP,
            ({
                let c = old(self).setup(*old(board));
                let q = after(old(board).pos, *mv);
                let (s1, v) = quiesce_s(
                    c,
                    old(self)@.on_trail(old(self)@.trail.with_key(hash_s(q))),
                    q,
                    -beta,
                    -alpha,
                    ply + 1,
                );
                &&& halted(&*old(self), &*final(self), s1.nodes, false)
                &&& !final(self).stopped ==> final(self)@ == s1.on_trail(s1.trail.without_key())
                    && r == -v
            }),
        decreases 128 - ply, 0int, 0int,
    {
        let undo = board.make_move(mv, &mut self.ev);
        self.trail.push_key(board.hash);
        let v: i32 = self.quiescence(board, -beta, -alpha, ply + 1);
        self.trail.pop_key();
        board.unmake_move(mv, &undo);
        proof {
            assert(self@.trail.keys =~= old(self)@.trail.keys);
            assert(self@.trail =~= old(self)@.trail);
        }
        -v
    }

    /// Captures and promotions until the position is quiet; every reply where
    /// the side to move is in check.
    pub fn quiescence(&mut self, board: &mut Board, alpha: i32, beta: i32, ply: usize) -> (r: i32)
        requires
            ready(&*old(self), &*old(board), alpha as int, beta as int, ply as int),
        ensures
            *final(board) == *old(board),
            calm(&*old(self), &*final(self)),
            -SCORE_CAP <= r <= SCORE_CAP,
            ({
                let full = quiesce_s(
                    old(self).setup(*old(board)),
                    old(self)@,
                    old(board).pos,
                    alpha as int,
                    beta as int,
                    ply as int,
                );
                &&& halted(&*old(self), &*final(self), full.0.nodes, false)
                &&& counted_on(&*old(self), &*final(self))
                &&& !final(self).stopped ==> (final(self)@, r as int) == full
            }),
        decreases 128 - ply, 2int, 0int,
    {
        let ghost c = self.setup(*board);
        let ghost p = board.pos;
        let ghost entry_state = self@;
        proof {
            lemma_quiesce(c, self@, p, alpha as int, beta as int, ply as int);
            lemma_quiesce_counts(c, self@, p, alpha as int, beta as int, ply as int);
        }
        let over: bool = self.visit();
        let ghost s0 = self@;
        if over {
            return 0;
        }
        let in_check: bool = board.in_check();
        let (a, eval, best0): (i32, i32, i32) = match self.q_enter(
            board,
            in_check,
            alpha,
            beta,
            ply,
        ) {
            QStand::Out(v) => {
                return v;
            },
            QStand::On { alpha: a, eval, best } => (a, eval, best),
        };
        let tt_move: Option<Move> = move_of(self.tt.probe(board.hash));
        let moves: Vec<Move> = if in_check {
            generate_legal(&board.pos)
        } else {
            generate_legal_caps(&board.pos)
        };
        proof {
            lemma_legal_playable(p);
            lemma_caps_playable(p);
            assert(forall|i: int|
                0 <= i < moves@.len() ==> playable(p, #[trigger] moves@[i]));
        }
        let ghost all = moves@;
        let len: usize = moves.len();
        let slots = self.trail.cont_slots(ply);
        let mut list: Ranked = score_moves(
            &self.lore,
            self.features.capture_hist,
            &board.pos,
            moves,
            tt_move,
            ply,
            1,
            &slots,
        );
        let ghost run0 = run_of(&*self, list, a, best0, None, false);
        let ghost full = quiesce_s(c, entry_state, p, alpha as int, beta as int, ply as int);
        let mut best: i32 = best0;
        let mut high: i32 = a;
        let mut best_move: Option<Move> = None;
        let mut done: bool = false;
        let mut i: usize = 0;
        while i < len && !done
            invariant
                i <= len,
                ply < 127,
                len == all.len(),
                list@.wf(),
                list@.moves.len() == len,
                forall|m: Move| #[trigger] list@.moves.contains(m) ==> playable(p, m),
                *board == *old(board),
                p == board.pos,
                c == old(self).setup(*old(board)),
                c == self.setup(*board),
                calm(&*old(self), &*self),
                ready(&*self, &*board, alpha as int, beta as int, ply as int),
                in_check == p.in_check(),
                -SCORE_CAP <= best <= SCORE_CAP,
                -SCORE_CAP <= eval <= SCORE_CAP,
                alpha <= high <= SCORE_CAP,
                !done ==> high < beta,
                best_move matches Some(m) ==> m.wf(),
                !self.stopped,
                old(self).nodes < self.nodes,
                full == quiesce_s(
                    c,
                    old(self)@,
                    p,
                    alpha as int,
                    beta as int,
                    ply as int,
                ),
                full.0.nodes == q_loop_s(
                    c,
                    p,
                    run0,
                    eval as int,
                    beta as int,
                    ply as int,
                    0,
                    len as int,
                ).st.nodes,
                q_loop_s(
                    c,
                    p,
                    run0,
                    eval as int,
                    beta as int,
                    ply as int,
                    0,
                    len as int,
                ) == q_loop_s(
                    c,
                    p,
                    run_of(&*self, list, high, best, best_move, done),
                    eval as int,
                    beta as int,
                    ply as int,
                    i as int,
                    len as int,
                ),
            decreases len - i,
        {
            let ghost before = run_of(&*self, list, high, best, best_move, done);
            proof {
                lemma_q_loop(
                    c,
                    p,
                    before,
                    eval as int,
                    beta as int,
                    ply as int,
                    i as int,
                    len as int,
                );
                lemma_q_loop_counts(
                    c,
                    p,
                    before,
                    eval as int,
                    beta as int,
                    ply as int,
                    i as int,
                    len as int,
                );
            }
            list.pick(i);
            let mv: Move = list.moves[i];
            assert(list@.moves.contains(list@.moves[i as int]));
            let ghost r1 = run_of(&*self, list, high, best, best_move, done);
            if !self.q_passes_over(board, in_check, eval, best, high, &mv) {
                proof {
                    lemma_q_tried(c, p, r1, mv, beta as int, ply as int);
                }
                let score: i32 = self.q_try(board, &mv, high, beta, ply);
                if self.stopped {
                    return 0;
                }
                let ghost taken = q_absorbed(QRun { st: self@, ..r1 }, mv, score as int, beta as int);
                assert(q_tried_s(c, p, r1, mv, beta as int, ply as int) == taken);
                if score > best {
                    best = score;
                    if score > high {
                        high = score;
                        best_move = Some(mv);
                        if high >= beta {
                            done = true;
                        }
                    }
                }
                assert(run_of(&*self, list, high, best, best_move, done) =~= taken);
            }
            i = i + 1;
        }
        proof {
            lemma_q_loop(
                c,
                p,
                run_of(&*self, list, high, best, best_move, done),
                eval as int,
                beta as int,
                ply as int,
                i as int,
                len as int,
            );
        }
        let bound: Bound = bound_of(best, alpha, beta);
        let se: i16 = if in_check {
            TT_EVAL_NONE
        } else {
            #[verifier::truncate]
            (eval as i16)
        };
        self.tt.store(board.hash, 0, score_to_tt(best, ply), bound, best_move, false, se);
        best
    }
}

}
