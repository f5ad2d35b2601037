//! What holds of the time a move may take, whatever the clock says.
use vstd::prelude::*;
use crate::bitboard::count_s;
use crate::clock::budget_s;
use crate::params::{Limits, Params};
use crate::position::{occ_s, Position};
use crate::types::Color;

verus! {

/// The clock decides: no depth, no node count, no fixed time and no endless
/// search has been asked for.
pub open spec fn on_the_clock(l: Limits) -> bool {
    !l.infinite && l.depth is None && l.nodes is None && l.movetime is None
}

/// Every part of the game is given the whole of its plan.
pub open spec fn even_phases(params: Params) -> bool {
    &&& params.tm_open_pct == 100
    &&& params.tm_early_pct == 100
    &&& params.tm_mid_pct == 100
    &&& params.tm_late_pct == 100
    &&& params.tm_simple_pct == 100
}

/// How many moves the clock has to last for.
pub open spec fn moves_to_go(params: Params, l: Limits) -> int {
    match l.movestogo {
        Some(n) => if n == 0 {
            1
        } else {
            n as int
        },
        None => params.tm_mtg as int,
    }
}

proof fn lemma_percent_grows(a: int, b: int, pct: int)
    requires
        0 <= a <= b,
        0 <= pct,
    ensures
        0 <= a * pct <= b * pct,
        0 <= (a * pct) / 100 <= (b * pct) / 100,
{
    assert(0 <= a * pct <= b * pct) by (nonlinear_arith)
        requires
            0 <= a <= b,
            0 <= pct,
    ;
}

proof fn lemma_share_grows(a: int, b: int, n: int, m: int)
    requires
        0 <= a <= b,
        1 <= n <= m,
    ensures
        0 <= a / m <= b / n,
{
    assert(0 <= a / m <= b / n) by (nonlinear_arith)
        requires
            0 <= a <= b,
            1 <= n <= m,
    ;
}

proof fn lemma_ratio_grows(a: int, b: int, t: int)
    requires
        0 <= a <= b,
        0 < t,
    ensures
        0 <= (a * 10) / t <= (b * 10) / t,
{
    assert(0 <= (a * 10) / t <= (b * 10) / t) by (nonlinear_arith)
        requires
            0 <= a * 10 <= b * 10,
            0 < t,
    ;
}

/// The increment is income: where nothing clips the plan, every hundred
/// milliseconds more of it add the part of the increment that may be spent,
/// whatever else the clock says.
pub proof fn law_income_is_spent(
    params: Params,
    overhead: int,
    a: Limits,
    b: Limits,
    p: Position,
    k: int,
)
    requires
        params.wf(),
        even_phases(params),
        0 <= overhead,
        on_the_clock(a),
        p.side == Color::White,
        a.wtime is Some,
        a.btime is None,
        0 <= k,
        b == (Limits { winc: b.winc, ..a }),
        b.winc == a.winc + 100 * k,
        ({
            let (soft, hard) = budget_s(params, overhead, a, p);
            params.tm_floor_ms < soft < hard
        }),
        ({
            let (soft, hard) = budget_s(params, overhead, b, p);
            params.tm_floor_ms < soft < hard
        }),
    ensures
        budget_s(params, overhead, b, p).0 == budget_s(params, overhead, a, p).0 + k
            * params.tm_inc_pct,
{
    reveal(budget_s);
    let pct = params.tm_inc_pct as int;
    let x = a.winc * pct;
    assert(b.winc * pct == x + 100 * (k * pct)) by (nonlinear_arith)
        requires
            b.winc == a.winc + 100 * k,
            x == a.winc * pct,
    ;
    assert((x + 100 * (k * pct)) / 100 == x / 100 + k * pct);
    let time = a.wtime->0 as int;
    let left = if time - overhead > 1 { time - overhead } else { 1 };
    let share = left / moves_to_go(params, a) + x / 100;
    assert(moves_to_go(params, b) == moves_to_go(params, a));
    assert((share * 100) / 100 == share);
    let more = share + k * pct;
    assert((more * 100) / 100 == more);
    assert(0 <= left / moves_to_go(params, a)) by {
        lemma_share_grows(left, left, moves_to_go(params, a), moves_to_go(params, a));
    }
}

/// Where nothing clips it, the plan is an even share of what is left of the clock
/// and the part of the increment that may be spent, in the measure of the part of
/// the game that is being played.
pub proof fn law_plan_is_a_share(
    params: Params,
    overhead: int,
    l: Limits,
    p: Position,
)
    requires
        params.wf(),
        0 <= overhead,
        on_the_clock(l),
        (if p.side == Color::White { l.btime } else { l.wtime }) is None,
        (if p.side == Color::White { l.wtime } else { l.btime }) matches Some(t) && overhead < t,
        ({
            let (soft, hard) = budget_s(params, overhead, l, p);
            params.tm_floor_ms < soft < hard
        }),
    ensures
        ({
            let (soft, hard) = budget_s(params, overhead, l, p);
            let white = p.side == Color::White;
            let time = if white { l.wtime->0 } else { l.btime->0 };
            let inc = if white { l.winc } else { l.binc };
            let left = time - overhead;
            let share = left / moves_to_go(params, l) + (inc * params.tm_inc_pct) / 100;
            // The half moves played so far.
            let gone = 2 * (p.fullmove - 1) + (if white { 0int } else { 1 });
            &&& gone < 12 ==> soft == (share * params.tm_open_pct) / 100
            &&& 12 <= gone < 24 ==> soft == (share * params.tm_early_pct) / 100
            &&& 24 <= gone < 45 ==> soft == (share * params.tm_mid_pct) / 100
            &&& 45 <= gone < 65 ==> soft == (share * params.tm_late_pct) / 100
            &&& 65 <= gone && count_s(occ_s(p.pieces)) <= 10 ==> soft == (share
                * params.tm_simple_pct) / 100
            &&& 65 <= gone && count_s(occ_s(p.pieces)) > 10 ==> soft == share
        }),
{
    reveal(budget_s);
    let white = p.side == Color::White;
    let time = if white { l.wtime->0 } else { l.btime->0 };
    let inc = if white { l.winc } else { l.binc };
    let share = (time - overhead) / moves_to_go(params, l) + (inc * params.tm_inc_pct) / 100;
    assert((share * 100) / 100 == share);
}

/// The other clock presses: more than half as much again as the other side has
/// buys what a lead is worth, less than seven tenths of it costs what being behind
/// does, and in between the plan is as if the other clock were not known.
pub proof fn law_the_other_clock_presses(
    params: Params,
    overhead: int,
    l: Limits,
    p: Position,
)
    requires
        params.wf(),
        even_phases(params),
        0 <= overhead,
        on_the_clock(l),
        p.side == Color::White,
        l.wtime is Some,
        l.btime matches Some(t) && t > 0,
        ({
            let (soft, hard) = budget_s(params, overhead, l, p);
            params.tm_floor_ms < soft < hard
        }),
        ({
            let (soft, hard) = budget_s(params, overhead, Limits { btime: None, ..l }, p);
            params.tm_floor_ms < soft < hard
        }),
    ensures
        ({
            let soft = budget_s(params, overhead, l, p).0;
            let alone = budget_s(params, overhead, Limits { btime: None, ..l }, p).0;
            let (ours, theirs) = (l.wtime->0, l.btime->0);
            &&& 10 * ours >= 16 * theirs ==> soft == (alone * params.tm_ahead_pct) / 100
            &&& 10 * ours < 7 * theirs ==> soft == (alone * params.tm_behind_pct) / 100
            &&& 7 * theirs <= 10 * ours < 16 * theirs ==> soft == alone
        }),
{
    reveal(budget_s);
    let (ours, theirs) = (l.wtime->0 as int, l.btime->0 as int);
    let ratio = (ours * 10) / theirs;
    assert(theirs * ratio <= ours * 10 < theirs * ratio + theirs) by (nonlinear_arith)
        requires
            theirs > 0,
            ratio == (ours * 10) / theirs,
    ;
    assert(10 * ours >= 16 * theirs ==> ratio >= 16) by (nonlinear_arith)
        requires
            theirs > 0,
            ours * 10 < theirs * ratio + theirs,
    ;
    assert(10 * ours < 16 * theirs ==> ratio < 16) by (nonlinear_arith)
        requires
            theirs > 0,
            theirs * ratio <= ours * 10,
    ;
    assert(10 * ours < 7 * theirs ==> ratio < 7) by (nonlinear_arith)
        requires
            theirs > 0,
            theirs * ratio <= ours * 10,
    ;
    assert(10 * ours >= 7 * theirs ==> ratio >= 7) by (nonlinear_arith)
        requires
            theirs > 0,
            ours * 10 < theirs * ratio + theirs,
    ;
    let inc = l.winc as int;
    let left = if ours - overhead > 1 { ours - overhead } else { 1 };
    let share = left / moves_to_go(params, l) + (inc * params.tm_inc_pct) / 100;
    assert((share * 100) / 100 == share);
    let phased = share;
    assert((phased * 100) / 100 == phased);
}

/// More on the clock, a larger increment or fewer moves to go never shorten the
/// plan or pull the wall nearer.
pub proof fn law_more_time_never_hurts(
    params: Params,
    overhead: int,
    a: Limits,
    b: Limits,
    p: Position,
)
    requires
        params.wf(),
        0 <= overhead,
        on_the_clock(a),
        on_the_clock(b),
        p.side == Color::White,
        a.wtime is Some,
        b.wtime is Some,
        a.wtime->0 <= b.wtime->0,
        a.winc <= b.winc,
        a.btime == b.btime,
        moves_to_go(params, b) <= moves_to_go(params, a),
    ensures
        budget_s(params, overhead, a, p).0 <= budget_s(params, overhead, b, p).0,
        budget_s(params, overhead, a, p).1 <= budget_s(params, overhead, b, p).1,
{
    reveal(budget_s);
    let (ta, tb) = (a.wtime->0 as int, b.wtime->0 as int);
    let ua = if ta - overhead > 1 { ta - overhead } else { 1 };
    let ub = if tb - overhead > 1 { tb - overhead } else { 1 };
    let na = moves_to_go(params, a);
    let nb = moves_to_go(params, b);
    lemma_share_grows(ua, ub, nb, na);
    lemma_percent_grows(a.winc as int, b.winc as int, params.tm_inc_pct as int);
    let sa = ua / na + (a.winc * params.tm_inc_pct) / 100;
    let sb = ub / nb + (b.winc * params.tm_inc_pct) / 100;
    let phase = crate::clock::phase_s(params, p);
    lemma_percent_grows(sa, sb, phase);
    let pa = (sa * phase) / 100;
    let pb = (sb * phase) / 100;
    if let Some(t) = a.btime {
        if t > 0 {
            lemma_ratio_grows(ta, tb, t as int);
            let fa = crate::clock::pressure_s(params, ta, a.btime);
            let fb = crate::clock::pressure_s(params, tb, a.btime);
            assert(0 <= fa <= fb);
            lemma_percent_grows(pa, pb, fa);
            assert(pb * fa <= pb * fb) by (nonlinear_arith)
                requires
                    0 <= pb,
                    0 <= fa <= fb,
            ;
        }
    }
    let qa = crate::clock::plan_s(params, p, ua, ta, a.winc as int, na, a.btime);
    let qb = crate::clock::plan_s(params, p, ub, tb, b.winc as int, nb, b.btime);
    assert(0 <= qa <= qb);
    let m = params.tm_hard_mult as int;
    assert(qa * m <= qb * m) by (nonlinear_arith)
        requires
            0 <= qa <= qb,
            0 <= m,
    ;
    lemma_percent_grows(ua, ub, params.tm_hard_pct as int);
}

/// The wall stands at so many times the plan, and never beyond its part of what
/// is left, but for the plan itself, which a low clock keeps from vanishing.
pub proof fn law_where_the_wall_stands(
    params: Params,
    overhead: int,
    l: Limits,
    p: Position,
)
    requires
        params.wf(),
        0 <= overhead,
        on_the_clock(l),
        (if p.side == Color::White { l.wtime } else { l.btime }) matches Some(t) && overhead < t,
    ensures
        ({
            let (soft, hard) = budget_s(params, overhead, l, p);
            let time = if p.side == Color::White { l.wtime->0 } else { l.btime->0 };
            let left = time - overhead;
            let part = (left * params.tm_hard_pct) / 100;
            // No more than what is left keeps the plan up.
            let least = if params.tm_floor_ms < left { params.tm_floor_ms as int } else { left };
            &&& least <= soft
            &&& hard <= part || hard == soft && soft <= (if least < 1 { 1 } else { least })
            &&& least < soft < hard ==> hard == (if soft * params.tm_hard_mult < part {
                soft * params.tm_hard_mult
            } else {
                part
            })
            &&& least < soft && soft == hard && params.tm_hard_mult > 1 ==> hard == part
        }),
{
    reveal(budget_s);
    let time = if p.side == Color::White { l.wtime->0 } else { l.btime->0 };
    let inc = if p.side == Color::White { l.winc } else { l.binc };
    let opp = if p.side == Color::White { l.btime } else { l.wtime };
    let left = time - overhead;
    let n = moves_to_go(params, l);
    lemma_share_grows(left, left, n, n);
    lemma_percent_grows(0, inc as int, params.tm_inc_pct as int);
    let share = left / n + (inc * params.tm_inc_pct) / 100;
    let phase = crate::clock::phase_s(params, p);
    lemma_percent_grows(0, share, phase);
    lemma_percent_grows(
        0,
        (share * phase) / 100,
        crate::clock::pressure_s(params, time as int, opp),
    );
    let base = crate::clock::plan_s(params, p, left, time as int, inc as int, n, opp);
    assert(0 <= base);
    let m = params.tm_hard_mult as int;
    assert(base <= base * m && (m > 1 && base > 0 ==> base < base * m)) by (nonlinear_arith)
        requires
            0 <= base,
            1 <= m,
    ;
}

/// A search told how deep to go, how many nodes to count or to go on until it is
/// stopped is given a day; so is one that knows no clock of its own side.
pub proof fn law_no_clock_means_a_day(
    params: Params,
    overhead: int,
    l: Limits,
    p: Position,
)
    requires
        l.infinite || l.depth is Some || l.nodes is Some || l.movetime is None && (if p.side
            == Color::White {
            l.wtime
        } else {
            l.btime
        }) is None,
    ensures
        budget_s(params, overhead, l, p) == (86_400_000int, 86_400_000int),
{
    reveal(budget_s);
}

/// A fixed time is spent as it is given, less what is held back for the way, and
/// never nothing.
pub proof fn law_fixed_time_is_spent(
    params: Params,
    overhead: int,
    l: Limits,
    p: Position,
    ms: u64,
)
    requires
        !l.infinite,
        l.depth is None,
        l.nodes is None,
        l.movetime == Some(ms),
        0 <= overhead,
    ensures
        overhead < ms ==> budget_s(params, overhead, l, p) == (ms - overhead, ms - overhead),
        ms <= overhead ==> budget_s(params, overhead, l, p) == (1int, 1int),
{
    reveal(budget_s);
}

/// Neither colour is favoured: with the clocks changed hands Black is given what
/// White was.
pub proof fn law_clocks_change_hands(
    params: Params,
    overhead: int,
    l: Limits,
    p: Position,
    q: Position,
)
    requires
        even_phases(params),
        p.side == Color::White,
        q.side == Color::Black,
    ensures
        budget_s(params, overhead, l, p) == budget_s(
            params,
            overhead,
            Limits { wtime: l.btime, btime: l.wtime, winc: l.binc, binc: l.winc, ..l },
            q,
        ),
{
    reveal(budget_s);
}

}
