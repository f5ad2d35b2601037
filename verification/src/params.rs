//! The numbers the search compares against, the techniques that can be switched,
//! and the limits a search is given.
use vstd::prelude::*;
use crate::num::{clamp3, iclamp};
use crate::text::{alike, same_but_case, same_text};

verus! {

/// Every number the search compares something against.
///
/// They are options rather than constants, so that a tuner can walk over them.
/// Two are stored multiplied by a hundred, because the shape they belong to is
/// a logarithm and the option protocol only carries integers.
#[derive(Clone, Copy)]
pub struct Params {
    pub rfp_margin: i32,
    pub rfp_improving: i32,
    pub rfp_depth: i32,
    pub razor_margin: i32,
    pub razor_depth: i32,
    pub nmp_base: i32,
    pub nmp_div: i32,
    pub lmp_base: i32,
    pub lmp_depth: i32,
    pub fut_base: i32,
    pub fut_slope: i32,
    pub fut_depth: i32,
    /// Divisor applied to the history score inside the forward futility
    /// margin, in history units.
    pub fut_hist_div: i32,
    pub hist_prune: i32,
    /// Static exchange threshold for quiet moves, as `-x * (d + d*d)`.
    pub see_prune_quiet: i32,
    /// A check is only worth extending for when the position is not already
    /// decided.
    pub check_ext_eval: i32,
    /// What a draw is worth to the side to move, in the units the network
    /// speaks, where two are a centipawn.
    ///
    /// Zero means a draw is a draw. Above zero means the engine would rather
    /// keep playing than repeat, which is worth something when the opponent
    /// evaluates positions the same way we do -- against an engine sharing our
    /// network, agreement about what is equal turns into a repetition, and half
    /// the games end that way.
    ///
    /// It is not free: an engine that refuses a draw it should take loses games
    /// it should have halved. Small, and measured.
    pub contempt: i32,
    pub see_prune: i32,
    /// x100
    pub lmr_base: i32,
    /// x100
    pub lmr_div: i32,
    pub lmr_cut: i32,
    pub lmr_hist_div: i32,
    pub asp_delta: i32,
    pub asp_depth: i32,
    pub sing_depth: i32,
    pub sing_margin: i32,
    /// How far below the singular window a move has to fall to earn a second
    /// ply rather than one.
    pub double_ext: i32,
    /// Reductions accumulate in 1024ths and divide at the end, so a term can be
    /// worth a third of a ply instead of all or nothing. These are in those
    /// units.
    pub lmr_cut_f: i32,
    pub lmr_nonpv_f: i32,
    pub lmr_ttpv_f: i32,
    /// A stored lower bound this far above beta already answers the question.
    ///
    /// In the network's units, where two are a centipawn.
    pub probcut_margin: i32,
    pub tm_mtg: i32,
    /// percent of the increment spent each move
    pub tm_inc_pct: i32,
    pub tm_hard_mult: i32,
    /// percent of what is left that the wall may reach
    pub tm_hard_pct: i32,
    /// Percent of the base allowance by game phase. The opening is played
    /// rather than calculated, and a simplified position has less to find.
    pub tm_open_pct: i32,
    pub tm_early_pct: i32,
    pub tm_mid_pct: i32,
    pub tm_late_pct: i32,
    pub tm_simple_pct: i32,
    /// What to do about the other clock: more when comfortably ahead on it,
    /// less when behind.
    pub tm_ahead_pct: i32,
    pub tm_behind_pct: i32,
    /// Never think for less than this, so a low clock still buys a move that
    /// was looked at rather than one that was guessed.
    pub tm_floor_ms: i32,
}

/// How many parameters there are.
pub const PARAM_COUNT: usize = 43;

/// The option name of each parameter.
pub open spec fn param_name(i: int) -> Seq<char> {
    if i == 0 {
        "RfpMargin"@
    } else if i == 1 {
        "RfpImproving"@
    } else if i == 2 {
        "RfpDepth"@
    } else if i == 3 {
        "RazorMargin"@
    } else if i == 4 {
        "RazorDepth"@
    } else if i == 5 {
        "NmpBase"@
    } else if i == 6 {
        "NmpDiv"@
    } else if i == 7 {
        "LmpBase"@
    } else if i == 8 {
        "LmpDepth"@
    } else if i == 9 {
        "FutBase"@
    } else if i == 10 {
        "FutSlope"@
    } else if i == 11 {
        "FutDepth"@
    } else if i == 12 {
        "FutHistDiv"@
    } else if i == 13 {
        "HistPrune"@
    } else if i == 14 {
        "SeePrune"@
    } else if i == 15 {
        "SeePruneQuiet"@
    } else if i == 16 {
        "CheckExtEval"@
    } else if i == 17 {
        "Contempt"@
    } else if i == 18 {
        "LmrBase"@
    } else if i == 19 {
        "LmrDiv"@
    } else if i == 20 {
        "LmrCut"@
    } else if i == 21 {
        "LmrHistDiv"@
    } else if i == 22 {
        "AspDelta"@
    } else if i == 23 {
        "AspDepth"@
    } else if i == 24 {
        "SingDepth"@
    } else if i == 25 {
        "SingMargin"@
    } else if i == 26 {
        "DoubleExt"@
    } else if i == 27 {
        "LmrCutF"@
    } else if i == 28 {
        "LmrNonPvF"@
    } else if i == 29 {
        "LmrTtPvF"@
    } else if i == 30 {
        "ProbcutMargin"@
    } else if i == 31 {
        "TmMtg"@
    } else if i == 32 {
        "TmIncPct"@
    } else if i == 33 {
        "TmHardMult"@
    } else if i == 34 {
        "TmHardPct"@
    } else if i == 35 {
        "TmOpenPct"@
    } else if i == 36 {
        "TmEarlyPct"@
    } else if i == 37 {
        "TmMidPct"@
    } else if i == 38 {
        "TmLatePct"@
    } else if i == 39 {
        "TmSimplePct"@
    } else if i == 40 {
        "TmAheadPct"@
    } else if i == 41 {
        "TmBehindPct"@
    } else if i == 42 {
        "TmFloorMs"@
    } else {
        Seq::empty()
    }
}

/// The least value a tuner may give it.
pub open spec fn param_lo(i: int) -> int {
    if i == 0 {
        40
    } else if i == 1 {
        0
    } else if i == 2 {
        2
    } else if i == 3 {
        50
    } else if i == 4 {
        1
    } else if i == 5 {
        2
    } else if i == 6 {
        2
    } else if i == 7 {
        1
    } else if i == 8 {
        2
    } else if i == 9 {
        20
    } else if i == 10 {
        30
    } else if i == 11 {
        2
    } else if i == 12 {
        20
    } else if i == 13 {
        100
    } else if i == 14 {
        20
    } else if i == 15 {
        1
    } else if i == 16 {
        0
    } else if i == 17 {
        0
    } else if i == 18 {
        0
    } else if i == 19 {
        120
    } else if i == 20 {
        0
    } else if i == 21 {
        4096
    } else if i == 22 {
        8
    } else if i == 23 {
        2
    } else if i == 24 {
        4
    } else if i == 25 {
        1
    } else if i == 26 {
        5
    } else if i == 27 {
        0
    } else if i == 28 {
        0
    } else if i == 29 {
        0
    } else if i == 30 {
        100
    } else if i == 31 {
        15
    } else if i == 32 {
        20
    } else if i == 33 {
        1
    } else if i == 34 {
        15
    } else if i == 35 {
        20
    } else if i == 36 {
        40
    } else if i == 37 {
        60
    } else if i == 38 {
        60
    } else if i == 39 {
        30
    } else if i == 40 {
        100
    } else if i == 41 {
        40
    } else if i == 42 {
        1
    } else {
        0
    }
}

/// The greatest value a tuner may give it.
pub open spec fn param_hi(i: int) -> int {
    if i == 0 {
        300
    } else if i == 1 {
        300
    } else if i == 2 {
        12
    } else if i == 3 {
        900
    } else if i == 4 {
        10
    } else if i == 5 {
        8
    } else if i == 6 {
        12
    } else if i == 7 {
        10
    } else if i == 8 {
        12
    } else if i == 9 {
        400
    } else if i == 10 {
        300
    } else if i == 11 {
        16
    } else if i == 12 {
        200
    } else if i == 13 {
        2000
    } else if i == 14 {
        250
    } else if i == 15 {
        40
    } else if i == 16 {
        400
    } else if i == 17 {
        100
    } else if i == 18 {
        200
    } else if i == 19 {
        400
    } else if i == 20 {
        4
    } else if i == 21 {
        65536
    } else if i == 22 {
        80
    } else if i == 23 {
        10
    } else if i == 24 {
        12
    } else if i == 25 {
        8
    } else if i == 26 {
        200
    } else if i == 27 {
        2048
    } else if i == 28 {
        2048
    } else if i == 29 {
        2048
    } else if i == 30 {
        1024
    } else if i == 31 {
        70
    } else if i == 32 {
        95
    } else if i == 33 {
        8
    } else if i == 34 {
        70
    } else if i == 35 {
        120
    } else if i == 36 {
        140
    } else if i == 37 {
        160
    } else if i == 38 {
        160
    } else if i == 39 {
        140
    } else if i == 40 {
        180
    } else if i == 41 {
        100
    } else if i == 42 {
        200
    } else {
        0
    }
}

pub open spec fn param_value(p: Params, i: int) -> int {
    if i == 0 {
        p.rfp_margin as int
    } else if i == 1 {
        p.rfp_improving as int
    } else if i == 2 {
        p.rfp_depth as int
    } else if i == 3 {
        p.razor_margin as int
    } else if i == 4 {
        p.razor_depth as int
    } else if i == 5 {
        p.nmp_base as int
    } else if i == 6 {
        p.nmp_div as int
    } else if i == 7 {
        p.lmp_base as int
    } else if i == 8 {
        p.lmp_depth as int
    } else if i == 9 {
        p.fut_base as int
    } else if i == 10 {
        p.fut_slope as int
    } else if i == 11 {
        p.fut_depth as int
    } else if i == 12 {
        p.fut_hist_div as int
    } else if i == 13 {
        p.hist_prune as int
    } else if i == 14 {
        p.see_prune as int
    } else if i == 15 {
        p.see_prune_quiet as int
    } else if i == 16 {
        p.check_ext_eval as int
    } else if i == 17 {
        p.contempt as int
    } else if i == 18 {
        p.lmr_base as int
    } else if i == 19 {
        p.lmr_div as int
    } else if i == 20 {
        p.lmr_cut as int
    } else if i == 21 {
        p.lmr_hist_div as int
    } else if i == 22 {
        p.asp_delta as int
    } else if i == 23 {
        p.asp_depth as int
    } else if i == 24 {
        p.sing_depth as int
    } else if i == 25 {
        p.sing_margin as int
    } else if i == 26 {
        p.double_ext as int
    } else if i == 27 {
        p.lmr_cut_f as int
    } else if i == 28 {
        p.lmr_nonpv_f as int
    } else if i == 29 {
        p.lmr_ttpv_f as int
    } else if i == 30 {
        p.probcut_margin as int
    } else if i == 31 {
        p.tm_mtg as int
    } else if i == 32 {
        p.tm_inc_pct as int
    } else if i == 33 {
        p.tm_hard_mult as int
    } else if i == 34 {
        p.tm_hard_pct as int
    } else if i == 35 {
        p.tm_open_pct as int
    } else if i == 36 {
        p.tm_early_pct as int
    } else if i == 37 {
        p.tm_mid_pct as int
    } else if i == 38 {
        p.tm_late_pct as int
    } else if i == 39 {
        p.tm_simple_pct as int
    } else if i == 40 {
        p.tm_ahead_pct as int
    } else if i == 41 {
        p.tm_behind_pct as int
    } else if i == 42 {
        p.tm_floor_ms as int
    } else {
        0
    }
}

/// The parameters with one of them replaced.
pub open spec fn param_put(p: Params, i: int, v: i32) -> Params {
    if i == 0 {
        Params { rfp_margin: v, ..p }
    } else if i == 1 {
        Params { rfp_improving: v, ..p }
    } else if i == 2 {
        Params { rfp_depth: v, ..p }
    } else if i == 3 {
        Params { razor_margin: v, ..p }
    } else if i == 4 {
        Params { razor_depth: v, ..p }
    } else if i == 5 {
        Params { nmp_base: v, ..p }
    } else if i == 6 {
        Params { nmp_div: v, ..p }
    } else if i == 7 {
        Params { lmp_base: v, ..p }
    } else if i == 8 {
        Params { lmp_depth: v, ..p }
    } else if i == 9 {
        Params { fut_base: v, ..p }
    } else if i == 10 {
        Params { fut_slope: v, ..p }
    } else if i == 11 {
        Params { fut_depth: v, ..p }
    } else if i == 12 {
        Params { fut_hist_div: v, ..p }
    } else if i == 13 {
        Params { hist_prune: v, ..p }
    } else if i == 14 {
        Params { see_prune: v, ..p }
    } else if i == 15 {
        Params { see_prune_quiet: v, ..p }
    } else if i == 16 {
        Params { check_ext_eval: v, ..p }
    } else if i == 17 {
        Params { contempt: v, ..p }
    } else if i == 18 {
        Params { lmr_base: v, ..p }
    } else if i == 19 {
        Params { lmr_div: v, ..p }
    } else if i == 20 {
        Params { lmr_cut: v, ..p }
    } else if i == 21 {
        Params { lmr_hist_div: v, ..p }
    } else if i == 22 {
        Params { asp_delta: v, ..p }
    } else if i == 23 {
        Params { asp_depth: v, ..p }
    } else if i == 24 {
        Params { sing_depth: v, ..p }
    } else if i == 25 {
        Params { sing_margin: v, ..p }
    } else if i == 26 {
        Params { double_ext: v, ..p }
    } else if i == 27 {
        Params { lmr_cut_f: v, ..p }
    } else if i == 28 {
        Params { lmr_nonpv_f: v, ..p }
    } else if i == 29 {
        Params { lmr_ttpv_f: v, ..p }
    } else if i == 30 {
        Params { probcut_margin: v, ..p }
    } else if i == 31 {
        Params { tm_mtg: v, ..p }
    } else if i == 32 {
        Params { tm_inc_pct: v, ..p }
    } else if i == 33 {
        Params { tm_hard_mult: v, ..p }
    } else if i == 34 {
        Params { tm_hard_pct: v, ..p }
    } else if i == 35 {
        Params { tm_open_pct: v, ..p }
    } else if i == 36 {
        Params { tm_early_pct: v, ..p }
    } else if i == 37 {
        Params { tm_mid_pct: v, ..p }
    } else if i == 38 {
        Params { tm_late_pct: v, ..p }
    } else if i == 39 {
        Params { tm_simple_pct: v, ..p }
    } else if i == 40 {
        Params { tm_ahead_pct: v, ..p }
    } else if i == 41 {
        Params { tm_behind_pct: v, ..p }
    } else if i == 42 {
        Params { tm_floor_ms: v, ..p }
    } else {
        p
    }
}

impl Params {
    /// Every parameter is within its range.
    pub open spec fn wf(self) -> bool {
        &&& 40 <= self.rfp_margin <= 300
        &&& 0 <= self.rfp_improving <= 300
        &&& 2 <= self.rfp_depth <= 12
        &&& 50 <= self.razor_margin <= 900
        &&& 1 <= self.razor_depth <= 10
        &&& 2 <= self.nmp_base <= 8
        &&& 2 <= self.nmp_div <= 12
        &&& 1 <= self.lmp_base <= 10
        &&& 2 <= self.lmp_depth <= 12
        &&& 20 <= self.fut_base <= 400
        &&& 30 <= self.fut_slope <= 300
        &&& 2 <= self.fut_depth <= 16
        &&& 20 <= self.fut_hist_div <= 200
        &&& 100 <= self.hist_prune <= 2000
        &&& 20 <= self.see_prune <= 250
        &&& 1 <= self.see_prune_quiet <= 40
        &&& 0 <= self.check_ext_eval <= 400
        &&& 0 <= self.contempt <= 100
        &&& 0 <= self.lmr_base <= 200
        &&& 120 <= self.lmr_div <= 400
        &&& 0 <= self.lmr_cut <= 4
        &&& 4096 <= self.lmr_hist_div <= 65536
        &&& 8 <= self.asp_delta <= 80
        &&& 2 <= self.asp_depth <= 10
        &&& 4 <= self.sing_depth <= 12
        &&& 1 <= self.sing_margin <= 8
        &&& 5 <= self.double_ext <= 200
        &&& 0 <= self.lmr_cut_f <= 2048
        &&& 0 <= self.lmr_nonpv_f <= 2048
        &&& 0 <= self.lmr_ttpv_f <= 2048
        &&& 100 <= self.probcut_margin <= 1024
        &&& 15 <= self.tm_mtg <= 70
        &&& 20 <= self.tm_inc_pct <= 95
        &&& 1 <= self.tm_hard_mult <= 8
        &&& 15 <= self.tm_hard_pct <= 70
        &&& 20 <= self.tm_open_pct <= 120
        &&& 40 <= self.tm_early_pct <= 140
        &&& 60 <= self.tm_mid_pct <= 160
        &&& 60 <= self.tm_late_pct <= 160
        &&& 30 <= self.tm_simple_pct <= 140
        &&& 100 <= self.tm_ahead_pct <= 180
        &&& 40 <= self.tm_behind_pct <= 100
        &&& 1 <= self.tm_floor_ms <= 200
    }
}

/// The first parameter of this name, [`PARAM_COUNT`] if there is none.
pub open spec fn param_from(name: Seq<char>, i: int) -> int
    decreases PARAM_COUNT - i,
{
    if i >= PARAM_COUNT || alike(param_name(i), name) { i } else { param_from(name, i + 1) }
}

pub open spec fn param_index(name: Seq<char>) -> int {
    param_from(name, 0)
}

/// Name and range of one parameter.
pub fn param_spec(i: usize) -> (r: (&'static str, i32, i32))
    requires
        i < PARAM_COUNT,
    ensures
        r.0@ == param_name(i as int),
        r.1 == param_lo(i as int),
        r.2 == param_hi(i as int),
        r.1 <= r.2,
{
    if i == 0 {
        ("RfpMargin", 40, 300)
    } else if i == 1 {
        ("RfpImproving", 0, 300)
    } else if i == 2 {
        ("RfpDepth", 2, 12)
    } else if i == 3 {
        ("RazorMargin", 50, 900)
    } else if i == 4 {
        ("RazorDepth", 1, 10)
    } else if i == 5 {
        ("NmpBase", 2, 8)
    } else if i == 6 {
        ("NmpDiv", 2, 12)
    } else if i == 7 {
        ("LmpBase", 1, 10)
    } else if i == 8 {
        ("LmpDepth", 2, 12)
    } else if i == 9 {
        ("FutBase", 20, 400)
    } else if i == 10 {
        ("FutSlope", 30, 300)
    } else if i == 11 {
        ("FutDepth", 2, 16)
    } else if i == 12 {
        ("FutHistDiv", 20, 200)
    } else if i == 13 {
        ("HistPrune", 100, 2000)
    } else if i == 14 {
        ("SeePrune", 20, 250)
    } else if i == 15 {
        ("SeePruneQuiet", 1, 40)
    } else if i == 16 {
        ("CheckExtEval", 0, 400)
    } else if i == 17 {
        ("Contempt", 0, 100)
    } else if i == 18 {
        ("LmrBase", 0, 200)
    } else if i == 19 {
        ("LmrDiv", 120, 400)
    } else if i == 20 {
        ("LmrCut", 0, 4)
    } else if i == 21 {
        ("LmrHistDiv", 4096, 65536)
    } else if i == 22 {
        ("AspDelta", 8, 80)
    } else if i == 23 {
        ("AspDepth", 2, 10)
    } else if i == 24 {
        ("SingDepth", 4, 12)
    } else if i == 25 {
        ("SingMargin", 1, 8)
    } else if i == 26 {
        ("DoubleExt", 5, 200)
    } else if i == 27 {
        ("LmrCutF", 0, 2048)
    } else if i == 28 {
        ("LmrNonPvF", 0, 2048)
    } else if i == 29 {
        ("LmrTtPvF", 0, 2048)
    } else if i == 30 {
        ("ProbcutMargin", 100, 1024)
    } else if i == 31 {
        ("TmMtg", 15, 70)
    } else if i == 32 {
        ("TmIncPct", 20, 95)
    } else if i == 33 {
        ("TmHardMult", 1, 8)
    } else if i == 34 {
        ("TmHardPct", 15, 70)
    } else if i == 35 {
        ("TmOpenPct", 20, 120)
    } else if i == 36 {
        ("TmEarlyPct", 40, 140)
    } else if i == 37 {
        ("TmMidPct", 60, 160)
    } else if i == 38 {
        ("TmLatePct", 60, 160)
    } else if i == 39 {
        ("TmSimplePct", 30, 140)
    } else if i == 40 {
        ("TmAheadPct", 100, 180)
    } else if i == 41 {
        ("TmBehindPct", 40, 100)
    } else {
        ("TmFloorMs", 1, 200)
    }
}

impl Params {
    pub fn get(&self, i: usize) -> (r: i32)
        requires
            i < PARAM_COUNT,
        ensures
            r == param_value(*self, i as int),
    {
        if i == 0 {
            self.rfp_margin
        } else if i == 1 {
            self.rfp_improving
        } else if i == 2 {
            self.rfp_depth
        } else if i == 3 {
            self.razor_margin
        } else if i == 4 {
            self.razor_depth
        } else if i == 5 {
            self.nmp_base
        } else if i == 6 {
            self.nmp_div
        } else if i == 7 {
            self.lmp_base
        } else if i == 8 {
            self.lmp_depth
        } else if i == 9 {
            self.fut_base
        } else if i == 10 {
            self.fut_slope
        } else if i == 11 {
            self.fut_depth
        } else if i == 12 {
            self.fut_hist_div
        } else if i == 13 {
            self.hist_prune
        } else if i == 14 {
            self.see_prune
        } else if i == 15 {
            self.see_prune_quiet
        } else if i == 16 {
            self.check_ext_eval
        } else if i == 17 {
            self.contempt
        } else if i == 18 {
            self.lmr_base
        } else if i == 19 {
            self.lmr_div
        } else if i == 20 {
            self.lmr_cut
        } else if i == 21 {
            self.lmr_hist_div
        } else if i == 22 {
            self.asp_delta
        } else if i == 23 {
            self.asp_depth
        } else if i == 24 {
            self.sing_depth
        } else if i == 25 {
            self.sing_margin
        } else if i == 26 {
            self.double_ext
        } else if i == 27 {
            self.lmr_cut_f
        } else if i == 28 {
            self.lmr_nonpv_f
        } else if i == 29 {
            self.lmr_ttpv_f
        } else if i == 30 {
            self.probcut_margin
        } else if i == 31 {
            self.tm_mtg
        } else if i == 32 {
            self.tm_inc_pct
        } else if i == 33 {
            self.tm_hard_mult
        } else if i == 34 {
            self.tm_hard_pct
        } else if i == 35 {
            self.tm_open_pct
        } else if i == 36 {
            self.tm_early_pct
        } else if i == 37 {
            self.tm_mid_pct
        } else if i == 38 {
            self.tm_late_pct
        } else if i == 39 {
            self.tm_simple_pct
        } else if i == 40 {
            self.tm_ahead_pct
        } else if i == 41 {
            self.tm_behind_pct
        } else {
            self.tm_floor_ms
        }
    }

    fn put(&mut self, i: usize, v: i32)
        requires
            i < PARAM_COUNT,
        ensures
            *final(self) == param_put(*old(self), i as int, v),
    {
        if i == 0 {
            self.rfp_margin = v;
        } else if i == 1 {
            self.rfp_improving = v;
        } else if i == 2 {
            self.rfp_depth = v;
        } else if i == 3 {
            self.razor_margin = v;
        } else if i == 4 {
            self.razor_depth = v;
        } else if i == 5 {
            self.nmp_base = v;
        } else if i == 6 {
            self.nmp_div = v;
        } else if i == 7 {
            self.lmp_base = v;
        } else if i == 8 {
            self.lmp_depth = v;
        } else if i == 9 {
            self.fut_base = v;
        } else if i == 10 {
            self.fut_slope = v;
        } else if i == 11 {
            self.fut_depth = v;
        } else if i == 12 {
            self.fut_hist_div = v;
        } else if i == 13 {
            self.hist_prune = v;
        } else if i == 14 {
            self.see_prune = v;
        } else if i == 15 {
            self.see_prune_quiet = v;
        } else if i == 16 {
            self.check_ext_eval = v;
        } else if i == 17 {
            self.contempt = v;
        } else if i == 18 {
            self.lmr_base = v;
        } else if i == 19 {
            self.lmr_div = v;
        } else if i == 20 {
            self.lmr_cut = v;
        } else if i == 21 {
            self.lmr_hist_div = v;
        } else if i == 22 {
            self.asp_delta = v;
        } else if i == 23 {
            self.asp_depth = v;
        } else if i == 24 {
            self.sing_depth = v;
        } else if i == 25 {
            self.sing_margin = v;
        } else if i == 26 {
            self.double_ext = v;
        } else if i == 27 {
            self.lmr_cut_f = v;
        } else if i == 28 {
            self.lmr_nonpv_f = v;
        } else if i == 29 {
            self.lmr_ttpv_f = v;
        } else if i == 30 {
            self.probcut_margin = v;
        } else if i == 31 {
            self.tm_mtg = v;
        } else if i == 32 {
            self.tm_inc_pct = v;
        } else if i == 33 {
            self.tm_hard_mult = v;
        } else if i == 34 {
            self.tm_hard_pct = v;
        } else if i == 35 {
            self.tm_open_pct = v;
        } else if i == 36 {
            self.tm_early_pct = v;
        } else if i == 37 {
            self.tm_mid_pct = v;
        } else if i == 38 {
            self.tm_late_pct = v;
        } else if i == 39 {
            self.tm_simple_pct = v;
        } else if i == 40 {
            self.tm_ahead_pct = v;
        } else if i == 41 {
            self.tm_behind_pct = v;
        } else {
            self.tm_floor_ms = v;
        }
    }

    /// Set a parameter by its option name, whatever the case, bringing the
    /// value into range. Returns false, and changes nothing, for an unknown
    /// name.
    pub fn set(&mut self, name: &str, value: i32) -> (r: bool)
        ensures
            ({
                let k = param_index(name@);
                &&& r == (k < PARAM_COUNT)
                &&& r ==> *final(self) == param_put(
                    *old(self),
                    k,
                    clamp3(value as int, param_lo(k), param_hi(k)) as i32,
                )
                &&& !r ==> *final(self) == *old(self)
            }),
            old(self).wf() ==> final(self).wf(),
    {
        let mut i: usize = 0;
        while i < PARAM_COUNT
            invariant
                i <= PARAM_COUNT,
                *self == *old(self),
                param_index(name@) == param_from(name@, i as int),
            decreases PARAM_COUNT - i,
        {
            let (n, lo, hi) = param_spec(i);
            if same_but_case(n, name) {
                self.put(i, iclamp(value, lo, hi));
                return true;
            }
            i = i + 1;
        }
        false
    }
}

pub open spec fn default_params() -> Params {
    Params {
        rfp_margin: 150,
        rfp_improving: 150,
        rfp_depth: 9,
        razor_margin: 348,
        razor_depth: 5,
        nmp_base: 4,
        nmp_div: 6,
        lmp_base: 3,
        lmp_depth: 6,
        fut_base: 100,
        fut_slope: 150,
        fut_depth: 12,
        fut_hist_div: 75,
        hist_prune: 600,
        see_prune: 70,
        see_prune_quiet: 5,
        check_ext_eval: 75,
        contempt: 0,
        lmr_base: 77,
        lmr_div: 236,
        lmr_cut: 2,
        lmr_hist_div: 22000,
        asp_delta: 25,
        asp_depth: 4,
        sing_depth: 5,
        sing_margin: 2,
        double_ext: 40,
        lmr_cut_f: 2048,
        lmr_nonpv_f: 1024,
        lmr_ttpv_f: 1024,
        probcut_margin: 294,
        tm_mtg: 46,
        tm_inc_pct: 75,
        tm_hard_mult: 4,
        tm_hard_pct: 25,
        tm_open_pct: 30,
        tm_early_pct: 70,
        tm_mid_pct: 110,
        tm_late_pct: 100,
        tm_simple_pct: 60,
        tm_ahead_pct: 115,
        tm_behind_pct: 85,
        tm_floor_ms: 10,
    }
}

impl Default for Params {
    fn default() -> (r: Self)
        ensures
            r == default_params(),
            r.wf(),
    {
        Params {
            rfp_margin: 150,
            rfp_improving: 150,
            rfp_depth: 9,
            razor_margin: 348,
            razor_depth: 5,
            nmp_base: 4,
            nmp_div: 6,
            lmp_base: 3,
            lmp_depth: 6,
            fut_base: 100,
            fut_slope: 150,
            fut_depth: 12,
            fut_hist_div: 75,
            hist_prune: 600,
            see_prune: 70,
            see_prune_quiet: 5,
            check_ext_eval: 75,
            contempt: 0,
            lmr_base: 77,
            lmr_div: 236,
            lmr_cut: 2,
            lmr_hist_div: 22000,
            asp_delta: 25,
            asp_depth: 4,
            sing_depth: 5,
            sing_margin: 2,
            double_ext: 40,
            lmr_cut_f: 2048,
            lmr_nonpv_f: 1024,
            lmr_ttpv_f: 1024,
            probcut_margin: 294,
            tm_mtg: 46,
            tm_inc_pct: 75,
            tm_hard_mult: 4,
            tm_hard_pct: 25,
            tm_open_pct: 30,
            tm_early_pct: 70,
            tm_mid_pct: 110,
            tm_late_pct: 100,
            tm_simple_pct: 60,
            tm_ahead_pct: 115,
            tm_behind_pct: 85,
            tm_floor_ms: 10,
        }
    }
}

/// A value in range is taken as it is, one outside becomes the nearest end, and
/// no other parameter is touched.
pub proof fn law_set_clamps(p: Params, k: int, value: i32)
    requires
        0 <= k < PARAM_COUNT,
    ensures
        ({
            let q = param_put(p, k, clamp3(value as int, param_lo(k), param_hi(k)) as i32);
            &&& param_lo(k) <= param_value(q, k) <= param_hi(k)
            &&& param_lo(k) <= value <= param_hi(k) ==> param_value(q, k) == value
            &&& forall|j: int|
                0 <= j < PARAM_COUNT && j != k ==> #[trigger] param_value(q, j) == param_value(p, j)
        }),
{
}

/// Techniques that can be switched on and off one at a time.
#[derive(Clone, Copy)]
pub struct Features {
    /// Learn how wrong the static evaluation usually is for a pawn structure,
    /// and feed it back.
    pub corr_hist: bool,
    /// Ask quiescence directly when a node is far enough behind.
    pub razoring: bool,
    /// Fade the evaluation towards a draw as the fifty move counter runs out.
    pub rule50_fade: bool,
    /// Reduce less at a node that once earned a full window.
    pub ttpv_lmr: bool,
    /// Search a ply shallower when the table has no move to try first.
    pub iir: bool,
    /// Cut the late move count in half when things are not improving.
    pub lmp_improving: bool,
    /// In quiescence, skip a capture that cannot come near alpha even if it
    /// wins everything it takes.
    pub qs_futility: bool,
    /// Spend less when most of the tree went to the move that won anyway.
    pub tm_node_effort: bool,
    /// Trust a stored lower bound far enough above beta without re-searching.
    pub probcut: bool,
    /// Only try the null move where the node is expected to fail high.
    pub nmp_cut_node: bool,
    /// On a reverse futility cutoff, return part of the way to the estimate
    /// rather than all of it.
    pub rfp_damp: bool,
    /// Extend a move that gives check.
    pub check_ext: bool,
    /// Credit the stored move when the table itself produces the cutoff.
    pub tt_cut_credit: bool,
    /// Remember which captures worked, not only what they take.
    pub capture_hist: bool,
    /// Use the staged search instead of this one: same board, same network,
    /// same table, same clock, and the search swapped whole.
    pub ref_search: bool,
    /// Use the integer-logarithm reduction formula instead of the table.
    pub log_lmr: bool,

    /// Reduce harder at a node that is expected to fail high.
    ///
    /// Unlike the rest, this is ON by default: it belongs in the baseline
    /// rather than on top of it, and the switch is here to measure it, not to
    /// leave it out.
    pub cut_node_lmr: bool,

    /// Skip a quiet move the history has consistently disliked.
    pub history_prune: bool,
    /// Spend longer when the score is falling, less when the best move has
    /// stopped changing.
    pub tm_stability: bool,

    /// Reduce late captures too, not only late quiet moves.
    pub lmr_captures: bool,
}

/// How many switches there are.
pub const FEATURE_COUNT: usize = 20;

/// The option name of each switch, in small letters.
pub open spec fn feature_name(i: int) -> Seq<char> {
    if i == 0 {
        "corrhist"@
    } else if i == 1 {
        "razoring"@
    } else if i == 2 {
        "rule50fade"@
    } else if i == 3 {
        "ttpvlmr"@
    } else if i == 4 {
        "iir"@
    } else if i == 5 {
        "lmpimproving"@
    } else if i == 6 {
        "qsfutility"@
    } else if i == 7 {
        "tmnodeeffort"@
    } else if i == 8 {
        "probcut"@
    } else if i == 9 {
        "nmpcutnode"@
    } else if i == 10 {
        "rfpdamp"@
    } else if i == 11 {
        "checkext"@
    } else if i == 12 {
        "ttcutcredit"@
    } else if i == 13 {
        "capturehist"@
    } else if i == 14 {
        "refsearch"@
    } else if i == 15 {
        "loglmr"@
    } else if i == 16 {
        "cutnodelmr"@
    } else if i == 17 {
        "historyprune"@
    } else if i == 18 {
        "tmstability"@
    } else if i == 19 {
        "lmrcaptures"@
    } else {
        Seq::empty()
    }
}

/// The switches with one of them thrown.
pub open spec fn feature_put(f: Features, i: int, on: bool) -> Features {
    if i == 0 {
        Features { corr_hist: on, ..f }
    } else if i == 1 {
        Features { razoring: on, ..f }
    } else if i == 2 {
        Features { rule50_fade: on, ..f }
    } else if i == 3 {
        Features { ttpv_lmr: on, ..f }
    } else if i == 4 {
        Features { iir: on, ..f }
    } else if i == 5 {
        Features { lmp_improving: on, ..f }
    } else if i == 6 {
        Features { qs_futility: on, ..f }
    } else if i == 7 {
        Features { tm_node_effort: on, ..f }
    } else if i == 8 {
        Features { probcut: on, ..f }
    } else if i == 9 {
        Features { nmp_cut_node: on, ..f }
    } else if i == 10 {
        Features { rfp_damp: on, ..f }
    } else if i == 11 {
        Features { check_ext: on, ..f }
    } else if i == 12 {
        Features { tt_cut_credit: on, ..f }
    } else if i == 13 {
        Features { capture_hist: on, ..f }
    } else if i == 14 {
        Features { ref_search: on, ..f }
    } else if i == 15 {
        Features { log_lmr: on, ..f }
    } else if i == 16 {
        Features { cut_node_lmr: on, ..f }
    } else if i == 17 {
        Features { history_prune: on, ..f }
    } else if i == 18 {
        Features { tm_stability: on, ..f }
    } else if i == 19 {
        Features { lmr_captures: on, ..f }
    } else {
        f
    }
}

pub open spec fn feature_value(f: Features, i: int) -> bool {
    if i == 0 {
        f.corr_hist
    } else if i == 1 {
        f.razoring
    } else if i == 2 {
        f.rule50_fade
    } else if i == 3 {
        f.ttpv_lmr
    } else if i == 4 {
        f.iir
    } else if i == 5 {
        f.lmp_improving
    } else if i == 6 {
        f.qs_futility
    } else if i == 7 {
        f.tm_node_effort
    } else if i == 8 {
        f.probcut
    } else if i == 9 {
        f.nmp_cut_node
    } else if i == 10 {
        f.rfp_damp
    } else if i == 11 {
        f.check_ext
    } else if i == 12 {
        f.tt_cut_credit
    } else if i == 13 {
        f.capture_hist
    } else if i == 14 {
        f.ref_search
    } else if i == 15 {
        f.log_lmr
    } else if i == 16 {
        f.cut_node_lmr
    } else if i == 17 {
        f.history_prune
    } else if i == 18 {
        f.tm_stability
    } else if i == 19 {
        f.lmr_captures
    } else {
        false
    }
}

/// The first switch of this name, [`FEATURE_COUNT`] if there is none.
pub open spec fn feature_from(name: Seq<char>, i: int) -> int
    decreases FEATURE_COUNT - i,
{
    if i >= FEATURE_COUNT || feature_name(i) == name { i } else { feature_from(name, i + 1) }
}

pub open spec fn feature_index(name: Seq<char>) -> int {
    feature_from(name, 0)
}

fn feature_label(i: usize) -> (r: &'static str)
    requires
        i < FEATURE_COUNT,
    ensures
        r@ == feature_name(i as int),
{
    if i == 0 {
        "corrhist"
    } else if i == 1 {
        "razoring"
    } else if i == 2 {
        "rule50fade"
    } else if i == 3 {
        "ttpvlmr"
    } else if i == 4 {
        "iir"
    } else if i == 5 {
        "lmpimproving"
    } else if i == 6 {
        "qsfutility"
    } else if i == 7 {
        "tmnodeeffort"
    } else if i == 8 {
        "probcut"
    } else if i == 9 {
        "nmpcutnode"
    } else if i == 10 {
        "rfpdamp"
    } else if i == 11 {
        "checkext"
    } else if i == 12 {
        "ttcutcredit"
    } else if i == 13 {
        "capturehist"
    } else if i == 14 {
        "refsearch"
    } else if i == 15 {
        "loglmr"
    } else if i == 16 {
        "cutnodelmr"
    } else if i == 17 {
        "historyprune"
    } else if i == 18 {
        "tmstability"
    } else {
        "lmrcaptures"
    }
}

impl Features {
    fn put(&mut self, i: usize, on: bool)
        requires
            i < FEATURE_COUNT,
        ensures
            *final(self) == feature_put(*old(self), i as int, on),
    {
        if i == 0 {
            *self = Features { corr_hist: on, ..*self };
        } else if i == 1 {
            *self = Features { razoring: on, ..*self };
        } else if i == 2 {
            *self = Features { rule50_fade: on, ..*self };
        } else if i == 3 {
            *self = Features { ttpv_lmr: on, ..*self };
        } else if i == 4 {
            *self = Features { iir: on, ..*self };
        } else if i == 5 {
            *self = Features { lmp_improving: on, ..*self };
        } else if i == 6 {
            *self = Features { qs_futility: on, ..*self };
        } else if i == 7 {
            *self = Features { tm_node_effort: on, ..*self };
        } else if i == 8 {
            *self = Features { probcut: on, ..*self };
        } else if i == 9 {
            *self = Features { nmp_cut_node: on, ..*self };
        } else if i == 10 {
            *self = Features { rfp_damp: on, ..*self };
        } else if i == 11 {
            *self = Features { check_ext: on, ..*self };
        } else if i == 12 {
            *self = Features { tt_cut_credit: on, ..*self };
        } else if i == 13 {
            *self = Features { capture_hist: on, ..*self };
        } else if i == 14 {
            *self = Features { ref_search: on, ..*self };
        } else if i == 15 {
            *self = Features { log_lmr: on, ..*self };
        } else if i == 16 {
            *self = Features { cut_node_lmr: on, ..*self };
        } else if i == 17 {
            *self = Features { history_prune: on, ..*self };
        } else if i == 18 {
            *self = Features { tm_stability: on, ..*self };
        } else {
            *self = Features { lmr_captures: on, ..*self };
        }
    }

    /// Throw a switch by its option name in small letters. Returns false, and
    /// changes nothing, for an unknown name.
    pub fn set(&mut self, name: &str, on: bool) -> (r: bool)
        ensures
            ({
                let k = feature_index(name@);
                &&& r == (k < FEATURE_COUNT)
                &&& r ==> *final(self) == feature_put(*old(self), k, on)
                &&& !r ==> *final(self) == *old(self)
            }),
    {
        let mut i: usize = 0;
        while i < FEATURE_COUNT
            invariant
                i <= FEATURE_COUNT,
                *self == *old(self),
                feature_index(name@) == feature_from(name@, i as int),
            decreases FEATURE_COUNT - i,
        {
            if same_text(feature_label(i), name) {
                self.put(i, on);
                return true;
            }
            i = i + 1;
        }
        false
    }

    /// The switches outside the settled set. All start off.
    pub fn extra() -> (r: [&'static str; 14])
        ensures
            forall|i: int| 0 <= i < 14 ==> (#[trigger] r[i])@ == extra_name(i),
    {
        [
            "CorrHist",
            "Razoring",
            "Rule50Fade",
            "TtPvLmr",
            "LmpImproving",
            "QsFutility",
            "Probcut",
            "NmpCutNode",
            "RfpDamp",
            "CheckExt",
            "TtCutCredit",
            "CaptureHist",
            "RefSearch",
            "LogLmr",
        ]
    }

    /// The switches of the settled set. All start on.
    pub fn baseline() -> (r: [&'static str; 6])
        ensures
            forall|i: int| 0 <= i < 6 ==> (#[trigger] r[i])@ == baseline_name(i),
    {
        [
            "CutNodeLmr",
            "HistoryPrune",
            "LmrCaptures",
            "TmStability",
            "IIR",
            "TmNodeEffort",
        ]
    }
}

pub open spec fn extra_name(i: int) -> Seq<char> {
    if i == 0 {
        "CorrHist"@
    } else if i == 1 {
        "Razoring"@
    } else if i == 2 {
        "Rule50Fade"@
    } else if i == 3 {
        "TtPvLmr"@
    } else if i == 4 {
        "LmpImproving"@
    } else if i == 5 {
        "QsFutility"@
    } else if i == 6 {
        "Probcut"@
    } else if i == 7 {
        "NmpCutNode"@
    } else if i == 8 {
        "RfpDamp"@
    } else if i == 9 {
        "CheckExt"@
    } else if i == 10 {
        "TtCutCredit"@
    } else if i == 11 {
        "CaptureHist"@
    } else if i == 12 {
        "RefSearch"@
    } else if i == 13 {
        "LogLmr"@
    } else {
        Seq::empty()
    }
}

pub open spec fn baseline_name(i: int) -> Seq<char> {
    if i == 0 {
        "CutNodeLmr"@
    } else if i == 1 {
        "HistoryPrune"@
    } else if i == 2 {
        "LmrCaptures"@
    } else if i == 3 {
        "TmStability"@
    } else if i == 4 {
        "IIR"@
    } else if i == 5 {
        "TmNodeEffort"@
    } else {
        Seq::empty()
    }
}

/// Which switch each extra is.
pub open spec fn extra_feature(i: int) -> int {
    if i == 0 {
        0
    } else if i == 1 {
        1
    } else if i == 2 {
        2
    } else if i == 3 {
        3
    } else if i == 4 {
        5
    } else if i == 5 {
        6
    } else if i == 6 {
        8
    } else if i == 7 {
        9
    } else if i == 8 {
        10
    } else if i == 9 {
        11
    } else if i == 10 {
        12
    } else if i == 11 {
        13
    } else if i == 12 {
        14
    } else if i == 13 {
        15
    } else {
        FEATURE_COUNT as int
    }
}

/// Which switch each of the settled set is.
pub open spec fn baseline_feature(i: int) -> int {
    if i == 0 {
        16
    } else if i == 1 {
        17
    } else if i == 2 {
        19
    } else if i == 3 {
        18
    } else if i == 4 {
        4
    } else if i == 5 {
        7
    } else {
        FEATURE_COUNT as int
    }
}

/// Every extra is a switch, and out of the box it is off.
pub proof fn law_extras_start_off(i: int)
    requires
        0 <= i < 14,
    ensures
        0 <= extra_feature(i) < FEATURE_COUNT,
        alike(extra_name(i), feature_name(extra_feature(i))),
        !feature_value(default_features(), extra_feature(i)),
{
    if i == 0 {
        reveal_strlit("CorrHist");
        reveal_strlit("corrhist");
    } else if i == 1 {
        reveal_strlit("Razoring");
        reveal_strlit("razoring");
    } else if i == 2 {
        reveal_strlit("Rule50Fade");
        reveal_strlit("rule50fade");
    } else if i == 3 {
        reveal_strlit("TtPvLmr");
        reveal_strlit("ttpvlmr");
    } else if i == 4 {
        reveal_strlit("LmpImproving");
        reveal_strlit("lmpimproving");
    } else if i == 5 {
        reveal_strlit("QsFutility");
        reveal_strlit("qsfutility");
    } else if i == 6 {
        reveal_strlit("Probcut");
        reveal_strlit("probcut");
    } else if i == 7 {
        reveal_strlit("NmpCutNode");
        reveal_strlit("nmpcutnode");
    } else if i == 8 {
        reveal_strlit("RfpDamp");
        reveal_strlit("rfpdamp");
    } else if i == 9 {
        reveal_strlit("CheckExt");
        reveal_strlit("checkext");
    } else if i == 10 {
        reveal_strlit("TtCutCredit");
        reveal_strlit("ttcutcredit");
    } else if i == 11 {
        reveal_strlit("CaptureHist");
        reveal_strlit("capturehist");
    } else if i == 12 {
        reveal_strlit("RefSearch");
        reveal_strlit("refsearch");
    } else if i == 13 {
        reveal_strlit("LogLmr");
        reveal_strlit("loglmr");
    }
}

/// Every one of the settled set is a switch, and out of the box it is on.
pub proof fn law_baseline_starts_on(i: int)
    requires
        0 <= i < 6,
    ensures
        0 <= baseline_feature(i) < FEATURE_COUNT,
        alike(baseline_name(i), feature_name(baseline_feature(i))),
        feature_value(default_features(), baseline_feature(i)),
{
    if i == 0 {
        reveal_strlit("CutNodeLmr");
        reveal_strlit("cutnodelmr");
    } else if i == 1 {
        reveal_strlit("HistoryPrune");
        reveal_strlit("historyprune");
    } else if i == 2 {
        reveal_strlit("LmrCaptures");
        reveal_strlit("lmrcaptures");
    } else if i == 3 {
        reveal_strlit("TmStability");
        reveal_strlit("tmstability");
    } else if i == 4 {
        reveal_strlit("IIR");
        reveal_strlit("iir");
    } else if i == 5 {
        reveal_strlit("TmNodeEffort");
        reveal_strlit("tmnodeeffort");
    }
}

pub open spec fn default_features() -> Features {
    Features {
        corr_hist: false,
        razoring: false,
        rule50_fade: false,
        ttpv_lmr: false,
        iir: true,
        lmp_improving: false,
        qs_futility: false,
        tm_node_effort: true,
        probcut: false,
        nmp_cut_node: false,
        rfp_damp: false,
        check_ext: false,
        tt_cut_credit: false,
        capture_hist: false,
        ref_search: false,
        log_lmr: false,
        cut_node_lmr: true,
        history_prune: true,
        tm_stability: true,
        lmr_captures: true,
    }
}

impl Default for Features {
    fn default() -> (r: Self)
        ensures
            r == default_features(),
    {
        Features {
            corr_hist: false,
            razoring: false,
            rule50_fade: false,
            ttpv_lmr: false,
            iir: true,
            lmp_improving: false,
            qs_futility: false,
            tm_node_effort: true,
            probcut: false,
            nmp_cut_node: false,
            rfp_damp: false,
            check_ext: false,
            tt_cut_credit: false,
            capture_hist: false,
            ref_search: false,
            log_lmr: false,
            cut_node_lmr: true,
            history_prune: true,
            tm_stability: true,
            lmr_captures: true,
        }
    }
}

/// What a search is told about how far to go.
#[derive(Clone, Copy)]
pub struct Limits {
    pub wtime: Option<u64>,
    pub btime: Option<u64>,
    pub winc: u64,
    pub binc: u64,
    pub movestogo: Option<u64>,
    pub movetime: Option<u64>,
    pub depth: Option<u32>,
    pub nodes: Option<u64>,
    pub infinite: bool,
}

pub open spec fn no_limits() -> Limits {
    Limits {
        wtime: None,
        btime: None,
        winc: 0,
        binc: 0,
        movestogo: None,
        movetime: None,
        depth: None,
        nodes: None,
        infinite: false,
    }
}

impl Default for Limits {
    fn default() -> (r: Self)
        ensures
            r == no_limits(),
    {
        Limits {
            wtime: None,
            btime: None,
            winc: 0,
            binc: 0,
            movestogo: None,
            movetime: None,
            depth: None,
            nodes: None,
            infinite: false,
        }
    }
}

}
