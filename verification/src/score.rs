//! Scores: what they mean, how they are stored, and the small formulas that
//! turn depths into numbers.
use vstd::prelude::*;
use crate::bitboard::{count_ones, count_s, lowest_s};
use crate::board::Board;
use crate::nnue::{
    lemma_half_roomy, lemma_score, lemma_score_bound, placement_score, Evaluator, Weights,
    SCORE_CAP,
};
use crate::num::{abs1, clamp3, iabs, iclamp, idiv, imin, lemma_tdiv_bound, log2_floor, min2, tdiv};
use crate::position::{lemma_occ_bounds, occ_s, Position};
use crate::types::{Color, PieceType};

verus! {

/// How deep a line may go.
pub const MAX_PLY: usize = 128;

pub const INF: i32 = 32_000;

pub const MATE: i32 = 31_000;

/// Anything at least this large is a mate score, not an evaluation.
pub const MATE_IN_MAX: i32 = 30_872;

pub open spec fn mate_s(ply: int) -> int {
    -MATE + ply
}

/// Being mated `ply` plies from the root.
pub fn mate_score(ply: usize) -> (r: i32)
    requires
        ply <= MAX_PLY,
    ensures
        r == mate_s(ply as int),
{
    -MATE + ply as i32
}

pub open spec fn mated(score: int) -> bool {
    abs1(score) >= MATE_IN_MAX
}

pub fn is_mate(score: i32) -> (r: bool)
    ensures
        r == mated(score as int),
{
    score >= MATE_IN_MAX || score <= -MATE_IN_MAX
}

/// A score as the table keeps it: a mate is counted from the node it was found
/// at.
pub open spec fn to_tt(score: int, ply: int) -> int {
    if score >= MATE_IN_MAX {
        score + ply
    } else if score <= -MATE_IN_MAX {
        score - ply
    } else {
        score
    }
}

/// A score as the search uses it: a mate is counted from the root.
pub open spec fn from_tt(score: int, ply: int) -> int {
    if score >= MATE_IN_MAX {
        score - ply
    } else if score <= -MATE_IN_MAX {
        score + ply
    } else {
        score
    }
}

/// Moving a mate score into the table.
pub fn score_to_tt(score: i32, ply: usize) -> (r: i32)
    requires
        ply <= MAX_PLY,
        -SCORE_CAP <= score <= SCORE_CAP,
    ensures
        r == to_tt(score as int, ply as int),
{
    if score >= MATE_IN_MAX {
        score + ply as i32
    } else if score <= -MATE_IN_MAX {
        score - ply as i32
    } else {
        score
    }
}

/// Moving a mate score out of the table.
pub fn score_from_tt(score: i32, ply: usize) -> (r: i32)
    requires
        ply <= MAX_PLY,
        -SCORE_CAP <= score <= SCORE_CAP,
    ensures
        r == from_tt(score as int, ply as int),
{
    if score >= MATE_IN_MAX {
        score - ply as i32
    } else if score <= -MATE_IN_MAX {
        score + ply as i32
    } else {
        score
    }
}

/// What is read back at the ply it was stored at is what was stored, mate or
/// not.
pub proof fn law_table_score_round_trip(score: int, ply: int)
    requires
        0 <= ply,
    ensures
        from_tt(to_tt(score, ply), ply) == score,
{
}

/// A mate read at another ply is as many plies further from the root as that
/// ply is deeper.
pub proof fn law_mate_distance_carried(score: int, stored_at: int, read_at: int)
    requires
        0 <= stored_at,
        0 <= read_at,
        score >= MATE_IN_MAX,
    ensures
        from_tt(to_tt(score, stored_at), read_at) == score + stored_at - read_at,
        from_tt(to_tt(-score, stored_at), read_at) == -(score + stored_at - read_at),
{
}

// ---------------------------------------------------------------------------
// What a cutoff is worth
// ---------------------------------------------------------------------------
pub open spec fn hist_bonus_s(depth: int) -> int {
    min2(200 * depth, 4000)
}

/// What one cutoff is worth, by the depth that found it.
pub fn hist_bonus(depth: i32) -> (r: i32)
    requires
        -10_737_418 <= depth <= 10_737_418,
    ensures
        r == hist_bonus_s(depth as int),
{
    imin(200 * depth, 4000)
}

pub open spec fn capt_bonus_s(depth: int) -> int {
    clamp3(depth * 680 - 250, 0, 2400)
}

/// What one capture cutoff is worth: a steeper curve, with an offset.
pub fn capt_bonus(depth: i32) -> (r: i32)
    requires
        -3_158_063 <= depth <= 3_158_064,
    ensures
        r == capt_bonus_s(depth as int),
{
    iclamp(depth * 680 - 250, 0, 2400)
}

/// Where an entry of the main history settles.
pub const HIST_MAX_MAIN: i32 = 15_000;

/// Where an entry of the continuation history settles.
pub const HIST_MAX_CONT: i32 = 30_000;

/// Where an entry of the capture history settles.
pub const HIST_MAX_CAPT: i32 = 16_384;

/// An entry moved towards the ceiling by an amount that shrinks as it is
/// approached.
pub open spec fn hist_next(entry: int, bonus: int, max: int) -> int {
    entry + bonus - tdiv(entry * abs1(bonus), max)
}

proof fn lemma_floor_product(e: int, b: int, m: int)
    requires
        0 <= e <= m,
        0 <= b <= m,
        0 < m,
    ensures
        e + b - m <= (e * b) / m <= e,
        (e * b) / m <= b,
        -m <= e - b - (e * b) / m,
        0 <= e * b <= m * m,
{
    let q = (e * b) / m;
    assert(0 <= e * b <= e * m && e * b <= m * b && e * m <= m * m) by (nonlinear_arith)
        requires
            0 <= e <= m,
            0 <= b <= m,
    ;
    assert(q * m <= e * b < q * m + m) by (nonlinear_arith)
        requires
            q == (e * b) / m,
            m > 0,
    ;
    assert((m - e) * (m - b) >= 0) by (nonlinear_arith)
        requires
            e <= m,
            b <= m,
    ;
    assert((m - e) * (m - b) == m * m - m * b - e * m + e * b) by (nonlinear_arith);
    assert((m + e) * (m - b) >= 0) by (nonlinear_arith)
        requires
            0 <= e,
            0 < m,
            b <= m,
    ;
    assert((m + e) * (m - b) == m * m - m * b + e * m - e * b) by (nonlinear_arith);
    assert(q >= e + b - m) by (nonlinear_arith)
        requires
            e * b < q * m + m,
            m * m - m * b - e * m + e * b >= 0,
            m > 0,
    ;
    assert(q <= e) by (nonlinear_arith)
        requires
            q * m <= e * b,
            e * b <= e * m,
            m > 0,
    ;
    assert(q <= b) by (nonlinear_arith)
        requires
            q * m <= e * b,
            e * b <= m * b,
            m > 0,
    ;
    assert(e - b - q >= -m) by (nonlinear_arith)
        requires
            q * m <= e * b,
            m * m - m * b + e * m - e * b >= 0,
            m > 0,
    ;
}

proof fn lemma_entry_product(entry: int, bonus: int, max: int)
    requires
        0 < max,
        -max <= entry <= max,
        -max <= bonus <= max,
    ensures
        -(max * max) <= entry * abs1(bonus) <= max * max,
{
    let b = abs1(bonus);
    assert(-(max * max) <= entry * b <= max * max) by (nonlinear_arith)
        requires
            0 < max,
            -max <= entry <= max,
            0 <= b <= max,
    ;
}

/// An entry within its ceiling stays within it, whatever it is credited or
/// charged. It never moves against the bonus, pushed further the way it leans it
/// moves no further than the bonus said, at its ceiling it stays, and from
/// nothing it becomes the bonus.
pub proof fn law_history_saturates(entry: int, bonus: int, max: int)
    requires
        0 < max,
        -max <= entry <= max,
        -max <= bonus <= max,
    ensures
        -max <= hist_next(entry, bonus, max) <= max,
        bonus >= 0 && entry >= 0 ==> entry <= hist_next(entry, bonus, max) <= entry + bonus,
        bonus <= 0 && entry <= 0 ==> entry + bonus <= hist_next(entry, bonus, max) <= entry,
        bonus >= 0 ==> entry <= hist_next(entry, bonus, max),
        bonus <= 0 ==> hist_next(entry, bonus, max) <= entry,
        entry == max && bonus >= 0 ==> hist_next(entry, bonus, max) == max,
        entry == -max && bonus <= 0 ==> hist_next(entry, bonus, max) == -max,
        entry == 0 ==> hist_next(entry, bonus, max) == bonus,
{
    let e = abs1(entry);
    let b = abs1(bonus);
    lemma_floor_product(e, b, max);
    if entry < 0 {
        assert(entry * b == -(e * b)) by (nonlinear_arith)
            requires
                entry == -e,
        ;
    }
    let q = (e * b) / max;
    assert(tdiv(entry * b, max) == if entry * b >= 0 { q } else { -q });
    if entry < 0 && e * b == 0 {
        assert(0int / max == 0) by (nonlinear_arith)
            requires
                max > 0,
        ;
    }
}

pub fn hist_add(entry: &mut i32, bonus: i32, max: i32)
    requires
        0 < max <= 46_340,
        -max <= *old(entry) <= max,
        -max <= bonus <= max,
    ensures
        *final(entry) == hist_next(*old(entry) as int, bonus as int, max as int),
        -max <= *final(entry) <= max,
{
    proof {
        law_history_saturates(*entry as int, bonus as int, max as int);
        lemma_entry_product(*entry as int, bonus as int, max as int);
        assert(max * max <= 2_147_395_600) by (nonlinear_arith)
            requires
                0 < max <= 46_340,
        ;
    }
    let away: i32 = iabs(bonus);
    let scaled: i32 = idiv(*entry * away, max);
    proof {
        lemma_tdiv_bound(*entry * away, max as int);
    }
    *entry = (*entry as i64 + bonus as i64 - scaled as i64) as i32;
}

proof fn lemma_log2(v: int, n: nat)
    requires
        v < vstd::arithmetic::power2::pow2(n + 1),
    ensures
        0 <= log2_floor(v) <= n,
    decreases n,
{
    if v > 1 {
        vstd::arithmetic::power2::lemma_pow2_unfold(n + 1);
        if n == 0 {
            vstd::arithmetic::power2::lemma2_to64();
        } else {
            lemma_log2(v / 2, (n - 1) as nat);
        }
    }
}

/// Floor of the base two logarithm.
pub fn ilog2i(v: i32) -> (r: i32)
    ensures
        r == log2_floor(v as int),
        0 <= r <= 30,
{
    let mut x: i32 = v;
    let mut n: i32 = 0;
    proof {
        vstd::arithmetic::power2::lemma2_to64();
        lemma_log2(v as int, 30);
    }
    while x > 1
        invariant
            0 <= n,
            0 <= log2_floor(x as int),
            n + log2_floor(x as int) == log2_floor(v as int),
            log2_floor(v as int) <= 30,
        decreases x,
    {
        proof {
            vstd::arithmetic::power2::lemma2_to64();
            lemma_log2(x as int / 2, 30);
        }
        x = x / 2;
        n = n + 1;
    }
    n
}

// ---------------------------------------------------------------------------
// The evaluation
// ---------------------------------------------------------------------------
pub open spec fn king_s(p: Position, c: Color) -> int {
    lowest_s(p.pieces[c.index()][5])
}

/// The score of a position from the side to move's point of view: what the
/// network says, faded towards a draw as the fifty move counter runs out.
#[verifier::opaque]
pub open spec fn eval_s(net: Option<Weights>, p: Position, fade: bool) -> int {
    match net {
        None => 0,
        Some(w) => {
            let raw = placement_score(
                w,
                p.pieces,
                p.side,
                king_s(p, p.side),
                king_s(p, p.side.other()),
                (count_s(occ_s(p.pieces)) - 1) / 8,
            );
            if fade { tdiv(raw * (200 - min2(p.halfmove as int, 100)), 200) } else { raw }
        },
    }
}

/// The fade never makes more of a score than it is: it keeps the side that is
/// better, costs nothing at first and half at the fifty move wall.
pub proof fn law_fades_towards_a_draw(net: Option<Weights>, p: Position)
    ensures
        ({
            let raw = eval_s(net, p, false);
            let faded = eval_s(net, p, true);
            &&& raw >= 0 ==> 0 <= faded <= raw
            &&& raw <= 0 ==> raw <= faded <= 0
            &&& p.halfmove == 0 ==> faded == raw
            &&& p.halfmove >= 100 ==> faded == tdiv(raw, 2)
        }),
{
    reveal(eval_s);
    let raw = eval_s(net, p, false);
    let k = 200 - min2(p.halfmove as int, 100);
    assert(100 <= k <= 200);
    assert(raw >= 0 ==> 0 <= raw * k <= raw * 200) by (nonlinear_arith)
        requires
            100 <= k <= 200,
    ;
    assert(raw <= 0 ==> raw * 200 <= raw * k <= 0) by (nonlinear_arith)
        requires
            100 <= k <= 200,
    ;
    if p.halfmove >= 100 {
        assert(raw * k == raw * 100);
    }
}

/// No evaluation reaches the cap.
pub proof fn lemma_eval_bound(net: Option<Weights>, p: Position, fade: bool)
    ensures
        -SCORE_CAP < eval_s(net, p, fade) < SCORE_CAP,
{
    reveal(eval_s);
    if let Some(w) = net {
        let b = (count_s(occ_s(p.pieces)) - 1) / 8;
        lemma_score_bound(w, p.pieces, p.side, king_s(p, p.side), king_s(p, p.side.other()), b);
        let raw = placement_score(
            w,
            p.pieces,
            p.side,
            king_s(p, p.side),
            king_s(p, p.side.other()),
            b,
        );
        let m = 200 - min2(p.halfmove as int, 100);
        let x = raw * m;
        assert(-(SCORE_CAP * 200) < x < SCORE_CAP * 200) by (nonlinear_arith)
            requires
                -SCORE_CAP < raw < SCORE_CAP,
                100 <= m <= 200,
                x == raw * m,
        ;
    }
}

/// The score of a position from the side to move's point of view.
fn evaluate(board: &Board, ev: &Evaluator, fade: bool) -> (r: i32)
    requires
        ev.wf(),
        board.wf(ev.weights()),
    ensures
        r == eval_s(board.reader(ev.weights()), board.pos, fade),
        -SCORE_CAP < r < SCORE_CAP,
{
    proof {
        reveal(eval_s);
        lemma_eval_bound(board.reader(ev.weights()), board.pos, fade);
        lemma_eval_bound(board.reader(ev.weights()), board.pos, false);
    }
    match &ev.network {
        None => 0,
        Some(net) => match &board.acc {
            None => 0,
            Some(acc) => {
                let count: u32 = count_ones(board.occ_all);
                proof {
                    let pl = board.pos.pieces;
                    lemma_occ_bounds(board.pos);
                    lemma_half_roomy(acc.half[0], net@, Color::White, pl);
                    lemma_half_roomy(acc.half[1], net@, Color::Black, pl);
                    lemma_score(
                        net@,
                        *acc,
                        pl,
                        board.pos.side,
                        lowest_s(pl[0][5]),
                        lowest_s(pl[1][5]),
                        (count - 1) / 8,
                    );
                }
                let raw: i32 = acc.eval(net, board.pos.side, count);
                if fade {
                    let left: i64 = 200 - (if board.pos.halfmove < 100 {
                        board.pos.halfmove as i64
                    } else {
                        100
                    });
                    proof {
                        let x = raw * left;
                        assert(-(SCORE_CAP * 200) < x < SCORE_CAP * 200) by (nonlinear_arith)
                            requires
                                -SCORE_CAP < raw < SCORE_CAP,
                                100 <= left <= 200,
                                x == raw * left,
                        ;
                    }
                    (raw as i64 * left / 200) as i32
                } else {
                    raw
                }
            },
        },
    }
}

/// The evaluation.
pub fn debug_eval(board: &Board, ev: &Evaluator, fade: bool) -> (r: i32)
    requires
        ev.wf(),
        board.wf(ev.weights()),
    ensures
        r == eval_s(board.reader(ev.weights()), board.pos, fade),
        -SCORE_CAP < r < SCORE_CAP,
{
    evaluate(board, ev, fade)
}

/// A piece value in the units the network speaks, two to the centipawn.
pub fn value_in_eval_units(pt: PieceType) -> (r: i32)
    ensures
        r == 2 * pt.worth(),
{
    pt.value() * 2
}

/// This side has something other than pawns and a king.
pub open spec fn has_force(p: Position, c: Color) -> bool {
    p.pieces[c.index()][1] | p.pieces[c.index()][2] | p.pieces[c.index()][3]
        | p.pieces[c.index()][4] != 0
}

/// Does this side have anything but pawns and a king?
pub fn has_pieces(p: &Position, side: Color) -> (r: bool)
    ensures
        r == has_force(*p, side),
{
    let c: usize = side.idx();
    p.pieces[c][1] | p.pieces[c][2] | p.pieces[c][3] | p.pieces[c][4] != 0
}

}
