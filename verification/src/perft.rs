//! Counting the leaves of the legal move tree.
use vstd::prelude::*;
use crate::board::Board;
use crate::moves::Move;
use crate::movegen::{generate_legal, legal, lemma_legal_playable};
use crate::nnue::Evaluator;
use crate::position::{after, Position};

verus! {

/// How many lines of exactly `depth` legal moves there are.
pub open spec fn leaves(p: Position, depth: nat) -> nat
    decreases depth, 0int,
{
    if depth == 0 {
        1
    } else {
        leaves_from(p, (depth - 1) as nat, legal(p).len() as int)
    }
}

/// The lines that start with one of the first `n` moves and go on for `depth`
/// more.
pub open spec fn leaves_from(p: Position, depth: nat, n: int) -> nat
    decreases depth, max0(n) + 1,
{
    if n <= 0 {
        0
    } else {
        leaves_from(p, depth, n - 1) + leaves(after(p, legal(p)[n - 1]), depth)
    }
}

pub open spec fn max0(n: int) -> int {
    if n > 0 { n } else { 0 }
}

proof fn lemma_grows(p: Position, depth: nat, n: int, m: int)
    requires
        0 <= n <= m,
    ensures
        leaves_from(p, depth, n) <= leaves_from(p, depth, m),
    decreases m,
{
    if n < m {
        lemma_grows(p, depth, n, m - 1);
    }
}

proof fn lemma_one_each(p: Position, n: int)
    requires
        0 <= n,
    ensures
        leaves_from(p, 0, n) == n,
    decreases n,
{
    if n > 0 {
        lemma_one_each(p, n - 1);
        assert(leaves(after(p, legal(p)[n - 1]), 0) == 1);
    }
}

/// One ply deep there are as many leaves as legal moves, and no ply deep there
/// is one: the position itself.
pub proof fn law_shallow_counts(p: Position)
    ensures
        leaves(p, 0) == 1,
        leaves(p, 1) == legal(p).len(),
{
    lemma_one_each(p, legal(p).len() as int);
}

/// Count the leaves `depth` plies down. The board comes back as it was.
pub fn perft(board: &mut Board, depth: u32, ev: &mut Evaluator) -> (r: u64)
    requires
        old(ev).wf(),
        old(board).wf(old(ev).weights()),
        leaves(old(board).pos, depth as nat) <= u64::MAX,
    ensures
        r == leaves(old(board).pos, depth as nat),
        *final(board) == *old(board),
        final(ev).wf(),
        final(ev).weights() == old(ev).weights(),
    decreases depth,
{
    if depth == 0 {
        return 1;
    }
    let moves: Vec<Move> = generate_legal(&board.pos);
    let ghost p = board.pos;
    if depth == 1 {
        proof {
            law_shallow_counts(p);
        }
        return moves.len() as u64;
    }
    let mut nodes: u64 = 0;
    let mut i: usize = 0;
    while i < moves.len()
        invariant
            i <= moves@.len(),
            moves@ == legal(p),
            p == old(board).pos,
            *board == *old(board),
            depth > 1,
            ev.wf(),
            ev.weights() == old(ev).weights(),
            board.wf(ev.weights()),
            leaves(p, depth as nat) <= u64::MAX,
            nodes == leaves_from(p, (depth - 1) as nat, i as int),
        decreases moves@.len() - i,
    {
        let mv: Move = moves[i];
        proof {
            lemma_legal_playable(p);
            lemma_grows(p, (depth - 1) as nat, i + 1, legal(p).len() as int);
            assert(moves@[i as int] == legal(p)[i as int]);
        }
        let undo = board.make_move(&mv, ev);
        let below: u64 = perft(board, depth - 1, ev);
        nodes = nodes + below;
        board.unmake_move(&mv, &undo);
        i = i + 1;
    }
    nodes
}

}
