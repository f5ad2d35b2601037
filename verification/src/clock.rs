//! Time: what a move may take, and how much has gone.
use vstd::prelude::*;
use crate::bitboard::{count_ones, count_s};
use crate::num::{b2i, max2, min2};
use crate::params::{Limits, Params};
use crate::position::{occ_s, occupied, Position};
use crate::types::Color;
use std::time::Instant;

verus! {

/// `std::time::Instant`, carried about and never looked into.
#[verifier::external_type_specification]
#[verifier::external_body]
pub struct ExInstant(std::time::Instant);

/// `Instant::now`: the moment it is called at. Nothing is claimed of it.
#[verifier::external_body]
pub(crate) fn now() -> (r: Instant) {
    Instant::now()
}

/// Looking at the clock gave this moment.
pub closed spec fn moment_read(at: Instant) -> bool {
    call_ensures(now, (), at)
}

/// The moment it is.
pub fn moment() -> (r: Instant)
    ensures
        moment_read(r),
{
    now()
}

/// `Instant::elapsed`, its `Duration` handed on as whole nanoseconds: the time
/// since `start`. It depends on when it is called, so nothing is claimed of it.
#[verifier::external_body]
pub(crate) fn elapsed_ns(start: &Instant) -> (r: u128) {
    start.elapsed().as_nanos()
}

/// A reading of the clock since `start` gave this many nanoseconds.
pub closed spec fn clock_says(start: &Instant, elapsed: u128) -> bool {
    call_ensures(elapsed_ns, (start,), elapsed)
}

/// Read the clock.
pub fn time_since(start: &Instant) -> (r: u128)
    ensures
        clock_says(start, r),
{
    elapsed_ns(start)
}

/// Nanoseconds to the millisecond.
pub const MILLI: u128 = 1_000_000;

/// A day, in milliseconds.
pub const DAY: u64 = 86_400_000;

/// What is ours to spend: the clock less the overhead, and never nothing.
pub open spec fn usable_s(time: int, overhead: int) -> int {
    max2(time - overhead, 1)
}

/// How many plies have been played.
pub open spec fn game_ply(p: Position) -> int {
    (p.fullmove - 1) * 2 + b2i(p.side == Color::Black)
}

/// Percent of the plan that this part of the game is worth.
pub open spec fn phase_s(params: Params, p: Position) -> int {
    let ply = game_ply(p);
    if ply < 12 {
        params.tm_open_pct as int
    } else if ply < 24 {
        params.tm_early_pct as int
    } else if ply < 45 {
        params.tm_mid_pct as int
    } else if ply < 65 {
        params.tm_late_pct as int
    } else if count_s(occ_s(p.pieces)) <= 10 {
        params.tm_simple_pct as int
    } else {
        100
    }
}

/// Percent of the plan that the other clock leaves us.
pub open spec fn pressure_s(params: Params, time: int, opp: Option<u64>) -> int {
    match opp {
        Some(t) if t > 0 => {
            let ratio = (time * 10) / t as int;
            if ratio > 15 {
                params.tm_ahead_pct as int
            } else if ratio < 7 {
                params.tm_behind_pct as int
            } else {
                100
            }
        },
        _ => 100,
    }
}

/// The plan for one move, in milliseconds.
pub open spec fn plan_s(
    params: Params,
    p: Position,
    usable: int,
    time: int,
    inc: int,
    mtg: int,
    opp: Option<u64>,
) -> int {
    let share = usable / mtg + (inc * params.tm_inc_pct) / 100;
    let phased = (share * phase_s(params, p)) / 100;
    if opp matches Some(t) && t > 0 {
        (phased * pressure_s(params, time, opp)) / 100
    } else {
        phased
    }
}

/// The plan and the wall out of a running clock.
pub open spec fn clocked(
    params: Params,
    overhead: int,
    p: Position,
    time: int,
    inc: int,
    movestogo: Option<u64>,
    opp: Option<u64>,
) -> (int, int) {
    let usable = usable_s(time, overhead);
    let mtg = match movestogo {
        Some(n) => max2(n as int, 1),
        None => params.tm_mtg as int,
    };
    let base = plan_s(params, p, usable, time, inc, mtg, opp);
    let wall = min2(base * params.tm_hard_mult, (usable * params.tm_hard_pct) / 100);
    let floor = min2(params.tm_floor_ms as int, usable);
    let soft = max2(min2(base, wall), floor);
    (max2(soft, 1), max2(max2(wall, soft), 1))
}

/// How long a move may take, in milliseconds: the plan, consulted between
/// iterations, and the wall, consulted inside the search.
#[verifier::opaque]
pub open spec fn budget_s(params: Params, overhead: int, limits: Limits, p: Position) -> (
    int,
    int,
) {
    let time = if p.side == Color::White { limits.wtime } else { limits.btime };
    let inc = if p.side == Color::White { limits.winc } else { limits.binc };
    let opp = if p.side == Color::White { limits.btime } else { limits.wtime };
    if limits.infinite || limits.depth is Some || limits.nodes is Some {
        (DAY as int, DAY as int)
    } else if limits.movetime is Some {
        let usable = usable_s(limits.movetime->0 as int, overhead);
        (usable, usable)
    } else {
        match time {
            Some(t) => clocked(
                params,
                overhead,
                p,
                t as int,
                inc as int,
                limits.movestogo,
                opp,
            ),
            None => (DAY as int, DAY as int),
        }
    }
}

proof fn lemma_share(a: int, pct: int, cap: int)
    requires
        0 <= a <= cap,
        0 <= pct <= 200,
    ensures
        0 <= a * pct <= cap * 200,
        0 <= (a * pct) / 100 <= cap * 2,
{
    assert(0 <= a * pct <= cap * 200) by (nonlinear_arith)
        requires
            0 <= a <= cap,
            0 <= pct <= 200,
    ;
}

proof fn lemma_quotient(a: int, b: int)
    requires
        0 <= a,
        1 <= b,
    ensures
        0 <= a / b <= a,
{
    assert(0 <= a / b <= a) by (nonlinear_arith)
        requires
            0 <= a,
            1 <= b,
    ;
}

/// The wall is never before the plan, neither is ever nothing, and on a running
/// clock neither reaches beyond what is actually left of it.
pub proof fn law_budget_within_the_clock(
    params: Params,
    overhead: int,
    limits: Limits,
    p: Position,
)
    requires
        params.wf(),
        0 <= overhead,
    ensures
        ({
            let (soft, hard) = budget_s(params, overhead, limits, p);
            let time = if p.side == Color::White { limits.wtime } else { limits.btime };
            let free = limits.infinite || limits.depth is Some || limits.nodes is Some;
            &&& 1 <= soft <= hard
            &&& !free && limits.movetime is Some ==> soft == hard && hard == usable_s(
                limits.movetime->0 as int,
                overhead,
            )
            &&& !free && limits.movetime is None ==> (time matches Some(t) ==> hard <= usable_s(
                t as int,
                overhead,
            ))
        }),
{
    reveal(budget_s);
    let time = if p.side == Color::White { limits.wtime } else { limits.btime };
    if let Some(t) = time {
        let usable = usable_s(t as int, overhead);
        let pct = params.tm_hard_pct as int;
        assert((usable * pct) / 100 <= usable) by (nonlinear_arith)
            requires
                0 <= usable,
                0 <= pct <= 70,
        ;
    }
}

fn lower_of(a: u128, b: u128) -> (r: u128)
    ensures
        r == min2(a as int, b as int),
{
    if a <= b { a } else { b }
}

fn higher_of(a: u128, b: u128) -> (r: u128)
    ensures
        r == max2(a as int, b as int),
{
    if a >= b { a } else { b }
}

fn phase(params: &Params, p: &Position) -> (r: u128)
    requires
        params.wf(),
        p.wf(),
    ensures
        r == phase_s(*params, *p),
        0 <= r <= 160,
{
    let ply: i32 = (p.fullmove as i32 - 1) * 2 + (if p.side == Color::Black {
        1
    } else {
        0
    });
    let pct: i32 = if ply < 12 {
        params.tm_open_pct
    } else if ply < 24 {
        params.tm_early_pct
    } else if ply < 45 {
        params.tm_mid_pct
    } else if ply < 65 {
        params.tm_late_pct
    } else if count_ones(occupied(&p.pieces)) <= 10 {
        params.tm_simple_pct
    } else {
        100
    };
    pct as u128
}

fn pressure(params: &Params, time: u64, opp: u64) -> (r: u128)
    requires
        params.wf(),
        opp > 0,
    ensures
        r == pressure_s(*params, time as int, Some(opp)),
        0 <= r <= 180,
{
    let ratio: u128 = time as u128 * 10 / opp as u128;
    let pct: i32 = if ratio > 15 {
        params.tm_ahead_pct
    } else if ratio < 7 {
        params.tm_behind_pct
    } else {
        100
    };
    pct as u128
}

fn plan(
    params: &Params,
    p: &Position,
    usable: u64,
    time: u64,
    inc: u64,
    mtg: u64,
    opp: Option<u64>,
) -> (r: u128)
    requires
        params.wf(),
        p.wf(),
        mtg > 0,
    ensures
        r == plan_s(
            *params,
            *p,
            usable as int,
            time as int,
            inc as int,
            mtg as int,
            opp,
        ),
        r <= 0x10_0000_0000_0000_0000_0000,
{
    let ghost top: int = 0x1_0000_0000_0000_0000;
    let parts: u64 = usable / mtg;
    proof {
        lemma_quotient(usable as int, mtg as int);
        lemma_share(inc as int, params.tm_inc_pct as int, top);
    }
    let income: u128 = inc as u128 * params.tm_inc_pct as u128 / 100;
    let share: u128 = parts as u128 + income;
    let part: u128 = phase(params, p);
    proof {
        lemma_share(share as int, part as int, 4 * top);
    }
    let phased: u128 = share * part / 100;
    match opp {
        Some(t) => if t > 0 {
            let left: u128 = pressure(params, time, t);
            proof {
                lemma_share(phased as int, left as int, 8 * top);
            }
            phased * left / 100
        } else {
            phased
        },
        None => phased,
    }
}

fn from_clock(
    params: &Params,
    overhead: u64,
    p: &Position,
    time: u64,
    inc: u64,
    movestogo: Option<u64>,
    opp: Option<u64>,
) -> (r: (u64, u64))
    requires
        params.wf(),
        p.wf(),
    ensures
        (r.0 as int, r.1 as int) == clocked(
            *params,
            overhead as int,
            *p,
            time as int,
            inc as int,
            movestogo,
            opp,
        ),
{
    let usable: u64 = if time > overhead {
        time - overhead
    } else {
        1
    };
    let mtg: u64 = match movestogo {
        Some(n) => if n > 1 {
            n
        } else {
            1
        },
        None => params.tm_mtg as u64,
    };
    let base: u128 = plan(params, p, usable, time, inc, mtg, opp);
    let pct: u128 = params.tm_hard_pct as u128;
    let mult: u128 = params.tm_hard_mult as u128;
    proof {
        let top: int = 0x1_0000_0000_0000_0000;
        lemma_share(usable as int, pct as int, top);
        assert((usable * pct) / 100 <= usable) by (nonlinear_arith)
            requires
                0 <= usable,
                0 <= pct <= 70,
        ;
        assert(0 <= base * mult <= 0x10_0000_0000_0000_0000_0000 * 8) by (nonlinear_arith)
            requires
                0 <= base <= 0x10_0000_0000_0000_0000_0000,
                0 <= mult <= 8,
        ;
    }
    let wall: u128 = lower_of(base * mult, usable as u128 * pct / 100);
    let floor: u128 = lower_of(params.tm_floor_ms as u128, usable as u128);
    let soft: u128 = higher_of(lower_of(base, wall), floor);
    let hard: u128 = higher_of(wall, soft);
    (higher_of(soft, 1) as u64, higher_of(hard, 1) as u64)
}

/// Decide how long this move may take: the plan and the wall, in milliseconds.
pub fn allocate(params: &Params, overhead: u64, limits: &Limits, p: &Position) -> (r: (u64, u64))
    requires
        params.wf(),
        p.wf(),
    ensures
        (r.0 as int, r.1 as int) == budget_s(*params, overhead as int, *limits, *p),
        1 <= r.0 <= r.1,
{
    proof {
        reveal(budget_s);
        law_budget_within_the_clock(*params, overhead as int, *limits, *p);
    }
    if limits.infinite || limits.depth.is_some() || limits.nodes.is_some() {
        return (DAY, DAY);
    }
    match limits.movetime {
        Some(mt) => {
            let usable: u64 = if mt > overhead {
                mt - overhead
            } else {
                1
            };
            return (usable, usable);
        },
        None => {},
    }
    let (time, inc, opp): (Option<u64>, u64, Option<u64>) = match p.side {
        Color::White => (limits.wtime, limits.winc, limits.btime),
        Color::Black => (limits.btime, limits.binc, limits.wtime),
    };
    match time {
        Some(t) => from_clock(params, overhead, p, t, inc, limits.movestogo, opp),
        None => (DAY, DAY),
    }
}

}
