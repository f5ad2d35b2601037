//! The searcher: its tables, its clock and its switches.
use vstd::prelude::*;
use crate::board::{hash_s, Board};
use crate::clock::{clock_says, moment, moment_read, time_since};
use crate::histories::{blank_histories, Histories};
use crate::lore::{blank_lore, Lore};
use crate::moves::Move;
use crate::nnue::{Evaluator, SCORE_CAP};
use crate::node::{draw_s, Setup, State};
use crate::params::{default_features, default_params, Features, Params};
use crate::position::{after, playable, Position};
use crate::trail::{latest, Trail, TrailView};
use crate::tt::{cleared, Table, TranspositionTable, TtEntry};
use std::sync::atomic::{AtomicBool, Ordering};
use std::sync::Arc;
use std::time::Instant;

verus! {

pub struct Searcher {
    pub tt: TranspositionTable,
    pub ev: Evaluator,
    pub stop: Arc<AtomicBool>,
    /// Milliseconds held back from every allocation to cover the time between
    /// deciding on a move and the move being seen by whoever is counting.
    pub move_overhead: u64,
    pub features: Features,
    pub params: Params,
    pub lmr: Vec<i32>,
    pub nodes: u64,
    pub start: Instant,
    /// The plan, in nanoseconds.
    pub soft: u128,
    /// The wall, in nanoseconds.
    pub hard: u128,
    pub stopped: bool,
    /// How many iterations the last search completed.
    pub completed: u32,
    pub lore: Lore,
    pub trail: Trail,
    /// How many keys are game history rather than search path.
    pub root_keys: usize,
    pub ref_hist: Histories,
    pub root_effort: Vec<(Move, u64)>,
    pub root_scores: Vec<(Move, i32)>,
}

impl View for Searcher {
    type V = State;

    open spec fn view(&self) -> State {
        State {
            tt: self.tt@,
            nodes: self.nodes as int,
            lore: self.lore@,
            trail: self.trail@,
            refs: self.ref_hist@,
            effort: self.root_effort@,
            scores: self.root_scores@,
        }
    }
}

/// A reduction table of the right shape.
pub open spec fn lmr_ok(lmr: Seq<i32>) -> bool {
    &&& lmr.len() == 4096
    &&& forall|i: int| 0 <= i < 4096 ==> -1_000_000 <= #[trigger] lmr[i] <= 1_000_000
}

impl Searcher {
    pub open spec fn wf(&self) -> bool {
        &&& self.tt.wf()
        &&& self.ev.wf()
        &&& self.params.wf()
        &&& lmr_ok(self.lmr@)
        &&& self.lore@.wf()
        &&& self.trail@.wf()
        &&& self.ref_hist@.wf()
        &&& self.ref_hist@.killers.len() == 128
        &&& self.root_keys <= self.trail@.keys.len()
    }

    /// What stays the same while this board is searched.
    pub open spec fn setup(&self, b: Board) -> Setup {
        Setup {
            params: self.params,
            features: self.features,
            lmr: self.lmr@,
            net: b.reader(self.ev.weights()),
        }
    }
}

/// Counting nodes from `from` to `upto` passes a multiple of five hundred and
/// twelve, where a reading of the clock and of the flag falls due.
pub open spec fn reading_due(from: int, upto: int) -> bool {
    from / 512 < upto / 512
}

/// A reading of the clock and of the flag found the wall still ahead and no
/// request to stop.
pub open spec fn in_time(start: &Instant, stop: &AtomicBool, hard: int) -> bool {
    exists|elapsed: u128, asked: bool|
        {
            &&& #[trigger] clock_says(start, elapsed)
            &&& #[trigger] flag_says(stop, asked)
            &&& elapsed < hard && !asked
        }
}

/// A search that is still running and came past a place where a reading falls
/// due made one, and that one let it go on.
pub open spec fn watched(a: &Searcher, b: &Searcher) -> bool {
    reading_due(a.nodes as int, b.nodes as int) && !b.stopped ==> in_time(
        &a.start,
        &*a.stop,
        a.hard as int,
    )
}

/// Nothing but the tables has changed, no node is taken back, a search that was
/// stopped still is, and one that was not has kept an eye on the clock.
pub open spec fn framed(a: &Searcher, b: &Searcher) -> bool {
    &&& b.params == a.params
    &&& b.features == a.features
    &&& b.lmr@ == a.lmr@
    &&& b.ev.weights() == a.ev.weights()
    &&& b.move_overhead == a.move_overhead
    &&& b.start == a.start
    &&& b.soft == a.soft
    &&& b.hard == a.hard
    &&& b.root_keys == a.root_keys
    &&& b.stop == a.stop
    &&& b.completed == a.completed
    &&& a.nodes <= b.nodes
    &&& a.stopped ==> b.stopped
    &&& watched(a, b)
}

/// A reading falls due between two counts exactly where a multiple of five
/// hundred and twelve lies between them.
pub proof fn law_reading_due_every_512_nodes(from: int, upto: int)
    ensures
        reading_due(from, upto) <==> exists|k: int| from < k <= upto && #[trigger] (k % 512) == 0,
{
    if reading_due(from, upto) {
        let k = (upto / 512) * 512;
        assert(from < k <= upto && k % 512 == 0);
    }
    if exists|k: int| from < k <= upto && #[trigger] (k % 512) == 0 {
        let k = choose|k: int| from < k <= upto && #[trigger] (k % 512) == 0;
        assert(from / 512 < k / 512 <= upto / 512);
    }
}

/// A reading of the clock found twice the plan gone.
pub open spec fn weary(start: &Instant, soft: int) -> bool {
    exists|elapsed: u128| #[trigger] clock_says(start, elapsed) && elapsed / 2 >= soft
}

/// A reading of the clock found less than twice the plan gone.
pub open spec fn at_ease(start: &Instant, soft: int) -> bool {
    exists|elapsed: u128| #[trigger] clock_says(start, elapsed) && elapsed / 2 < soft
}

/// A search that noted a second root move and is still running has looked at the
/// clock after it, and less than twice the plan was gone.
pub open spec fn unhurried(a: &Searcher, b: &Searcher) -> bool {
    !b.stopped && a@.scores.len() + 1 < b@.scores.len() ==> at_ease(&a.start, a.soft as int)
}

/// A reading of the clock and of the flag found the wall reached, or a request
/// to stop.
pub open spec fn timed_out(start: &Instant, stop: &AtomicBool, hard: int) -> bool {
    exists|elapsed: u128, asked: bool|
        {
            &&& #[trigger] clock_says(start, elapsed)
            &&& #[trigger] flag_says(stop, asked)
            &&& elapsed >= hard || asked
        }
}

/// A search that would have counted up to `full` was only ended early because
/// the clock and the flag were looked at on the way there and one of them said
/// so, or because it grew `tired` at the root. The counter itself ends a search
/// at its last value.
pub open spec fn halted(a: &Searcher, b: &Searcher, full: int, tired: bool) -> bool {
    !a.stopped && b.stopped ==> tired || (reading_due(a.nodes as int, full) && (b.nodes == u64::MAX
        || reading_due(a.nodes as int, b.nodes as int) && timed_out(
        &a.start,
        &*a.stop,
        a.hard as int,
    )))
}

/// A search that comes past a multiple of five hundred and twelve has read the
/// clock and the flag on the way, and goes on or ends by what they said; only the
/// end of the counter ends it unread.
pub proof fn law_the_wall_is_watched(a: &Searcher, b: &Searcher, full: int)
    requires
        framed(a, b),
        halted(a, b, full, false),
        !a.stopped,
        reading_due(a.nodes as int, b.nodes as int),
        b.nodes < u64::MAX,
    ensures
        b.stopped ==> timed_out(&a.start, &*a.stop, a.hard as int),
        !b.stopped ==> in_time(&a.start, &*a.stop, a.hard as int),
        exists|elapsed: u128, asked: bool| #[trigger]
            clock_says(&a.start, elapsed) && #[trigger] flag_says(&*a.stop, asked) && b.stopped == (
            elapsed >= a.hard || asked),
{
}

/// A search that passes no multiple of five hundred and twelve on its way is not
/// cut short.
pub proof fn law_short_search_completes(a: &Searcher, b: &Searcher, full: int)
    requires
        halted(a, b, full, false),
        !a.stopped,
        a.nodes / 512 == full / 512,
    ensures
        !b.stopped,
{
}

/// At least one more node has been counted, as far as the counter goes.
pub open spec fn counted_on(a: &Searcher, b: &Searcher) -> bool {
    a.nodes < b.nodes || a.nodes == u64::MAX
}

/// No ply is marked as a pass that was not, and above `ply` the marks stay.
pub open spec fn unpassed(a: TrailView, b: TrailView, ply: int) -> bool {
    &&& b.null_at.len() == a.null_at.len()
    &&& forall|i: int|
        0 <= i < a.null_at.len() ==> {
            &&& #[trigger] b.null_at[i] ==> a.null_at[i]
            &&& i < ply ==> b.null_at[i] == a.null_at[i]
        }
}

/// What every search call leaves alone: the keys, the game before the root, the
/// best lines above its ply, and the marks of a pass.
pub open spec fn undisturbed(a: TrailView, b: TrailView, ply: int) -> bool {
    &&& b.keys == a.keys
    &&& b.pre_moves == a.pre_moves
    &&& b.same_above(a, ply)
    &&& unpassed(a, b, ply)
}

/// No deeper than eight hundred plies and one for each that has been walked. A
/// child is never searched more than one ply deeper than its parent, so the walk
/// keeps to it; and it stays under a thousand, where the largest product of the
/// search, two thousand times the square of the depth, still fits.
pub open spec fn depth_ok(depth: int, ply: int) -> bool {
    depth <= 800 + ply
}

/// A board, a window and a ply that can be searched.
pub open spec fn ready(s: &Searcher, b: &Board, alpha: int, beta: int, ply: int) -> bool {
    &&& s.wf()
    &&& b.wf(s.ev.weights())
    &&& -SCORE_CAP <= alpha < beta <= SCORE_CAP
    &&& 0 <= ply < 128
}

/// A relaxed load of the flag gave this answer.
pub open spec fn flag_says(stop: &AtomicBool, asked: bool) -> bool {
    call_ensures(AtomicBool::load, (stop, Ordering::Relaxed), asked)
}

/// The flag was lowered, by a relaxed store.
pub open spec fn flag_lowered(stop: &AtomicBool) -> bool {
    call_ensures(AtomicBool::store, (stop, false, Ordering::Relaxed), ())
}

/// A search ends at the wall, or earlier where somebody asks it to.
pub fn time_is_up(elapsed: u128, hard: u128, asked: bool) -> (r: bool)
    ensures
        r == (elapsed >= hard || asked),
{
    elapsed >= hard || asked
}

impl Searcher {
    pub fn new(hash_mb: usize, stop: Arc<AtomicBool>, lmr: Vec<i32>) -> (r: Self)
        requires
            1 <= hash_mb <= 65536,
            lmr_ok(lmr@),
        ensures
            r.wf(),
            r@.lore == blank_lore(),
            r@.trail == crate::trail::blank_trail(),
            r@.refs == blank_histories(128),
            r@.tt == (Table {
                slots: Seq::new((hash_mb * 16384) as nat, |i: int| None::<TtEntry>),
                age: 0,
            }),
            r@.nodes == 0,
            r@.effort.len() == 0,
            r@.scores.len() == 0,
            r.params == default_params(),
            r.features == default_features(),
            r.lmr@ == lmr@,
            r.move_overhead == 30,
            r.ev.weights() is None,
            r.stop == stop,
            moment_read(r.start),
            r.soft == 0,
            r.hard == 0,
            r.completed == 0,
            r.root_keys == 0,
            !r.stopped,
    {
        let r = Searcher {
            tt: TranspositionTable::new(hash_mb),
            ev: Evaluator::new(),
            stop,
            move_overhead: 30,
            features: Features::default(),
            params: Params::default(),
            lmr,
            nodes: 0,
            start: moment(),
            soft: 0,
            hard: 0,
            stopped: false,
            completed: 0,
            lore: Lore::new(),
            trail: Trail::new(),
            root_keys: 0,
            ref_hist: Histories::new(128),
            root_effort: Vec::new(),
            root_scores: Vec::new(),
        };
        assert(r@.tt =~= (Table {
            slots: Seq::new((hash_mb * 16384) as nat, |i: int| None::<TtEntry>),
            age: 0,
        }));
        r
    }

    /// Call after changing any parameter: the reduction table is derived from
    /// two of them, and is handed in anew.
    pub fn params_changed(&mut self, lmr: Vec<i32>)
        requires
            old(self).wf(),
            lmr_ok(lmr@),
        ensures
            final(self).wf(),
            final(self).lmr@ == lmr@,
            final(self)@ == old(self)@,
            framed(&*old(self), &Searcher { lmr: old(self).lmr, ..*final(self) }),
            final(self).stopped == old(self).stopped,
    {
        self.lmr = lmr;
    }

    /// The keys of every position of the game so far, the current one last.
    pub fn set_game_history(&mut self, keys: Vec<u64>)
        requires
            old(self).wf(),
        ensures
            final(self).wf(),
            final(self)@ == old(self)@.on_trail(TrailView { keys: keys@, ..old(self)@.trail }),
            final(self).root_keys == keys@.len(),
            framed(&*old(self), &Searcher { root_keys: old(self).root_keys, ..*final(self) }),
            final(self).stopped == old(self).stopped,
    {
        self.root_keys = keys.len();
        self.trail.keys = keys;
    }

    /// The moves actually played before this search started.
    pub fn set_game_moves(&mut self, moves: &[Move])
        requires
            old(self).wf(),
            forall|i: int| 0 <= i < moves@.len() ==> (#[trigger] moves@[i]).wf(),
        ensures
            final(self).wf(),
            final(self)@ == old(self)@.on_trail(
                TrailView { pre_moves: latest(moves@), ..old(self)@.trail },
            ),
            framed(&*old(self), &*final(self)),
            final(self).stopped == old(self).stopped,
    {
        self.trail.set_game_moves(moves);
    }

    /// Forget everything learned.
    pub fn clear(&mut self)
        requires
            old(self).wf(),
        ensures
            final(self).wf(),
            final(self)@ == (State {
                tt: cleared(old(self)@.tt),
                lore: blank_lore(),
                refs: blank_histories(128),
                ..old(self)@
            }),
            framed(&*old(self), &*final(self)),
            final(self).stopped == old(self).stopped,
    {
        self.tt.clear();
        self.lore = Lore::new();
        self.ref_hist.clear();
    }

    /// Has somebody asked to stop? The answer is what a relaxed load of this
    /// search's own flag gives back; whoever else holds the flag may raise it at
    /// any time.
    fn stop_requested(&self) -> (r: bool)
        ensures
            flag_says(&*self.stop, r),
    {
        self.stop.load(Ordering::Relaxed)
    }

    /// Take back a request to stop.
    pub fn lower_flag(&self)
        ensures
            flag_lowered(&*self.stop),
    {
        self.stop.store(false, Ordering::Relaxed);
    }

    /// Has the time run out, or has somebody asked to stop? The clock and the
    /// flag are looked at once every five hundred and twelve nodes; what they say
    /// is not known here.
    pub fn out_of_time(&mut self) -> (r: bool)
        requires
            old(self).wf(),
        ensures
            final(self).wf(),
            final(self)@ == old(self)@,
            framed(&*old(self), &*final(self)),
            r == final(self).stopped,
            old(self).nodes % 512 != 0 ==> final(self).stopped == old(self).stopped,
            !old(self).stopped && old(self).nodes % 512 == 0 ==> exists|elapsed: u128, asked: bool|
                {
                    &&& #[trigger] clock_says(&old(self).start, elapsed)
                    &&& #[trigger] flag_says(&*old(self).stop, asked)
                    &&& r == (elapsed >= old(self).hard || asked)
                },
    {
        if self.stopped {
            return true;
        }
        if self.nodes % 512 == 0 {
            let elapsed: u128 = time_since(&self.start);
            let asked: bool = self.stop_requested();
            self.stopped = time_is_up(elapsed, self.hard, asked);
            assert(clock_says(&old(self).start, elapsed));
        }
        self.stopped
    }

    /// One more node. The search ends where the counter does.
    pub fn count_node(&mut self)
        requires
            old(self).wf(),
        ensures
            final(self).wf(),
            framed(&*old(self), &Searcher { nodes: old(self).nodes, ..*final(self) }),
            old(self).nodes < u64::MAX ==> final(self)@ == old(self)@.counted()
                && final(self).stopped == old(self).stopped,
            old(self).nodes == u64::MAX ==> final(self)@ == old(self)@ && final(self).stopped,
    {
        if self.nodes == 0xffff_ffff_ffff_ffff {
            self.stopped = true;
        } else {
            self.nodes = self.nodes + 1;
        }
    }

    /// Count one more node and say whether the search is over.
    pub fn visit(&mut self) -> (r: bool)
        requires
            old(self).wf(),
        ensures
            final(self).wf(),
            framed(&*old(self), &*final(self)),
            r == final(self).stopped,
            !r ==> final(self)@ == old(self)@.counted(),
            final(self)@.trail == old(self)@.trail,
            final(self)@.effort == old(self)@.effort,
            final(self)@.scores == old(self)@.scores,
            halted(&*old(self), &*final(self), old(self).nodes + 1, false),
            counted_on(&*old(self), &*final(self)),
            old(self).nodes < u64::MAX ==> final(self).nodes == old(self).nodes + 1,
    {
        self.count_node();
        self.out_of_time()
    }

    /// What a drawn position is worth, seen from the side to move at `ply`.
    pub fn draw_score(&self, ply: usize) -> (r: i32)
        requires
            self.wf(),
        ensures
            forall|c: Setup| c.params == self.params ==> r == #[trigger] draw_s(c, ply as int),
            -100 <= r <= 100,
    {
        if ply % 2 == 1 {
            self.params.contempt
        } else {
            -self.params.contempt
        }
    }

    /// Would playing this move land straight back on a position already seen?
    pub fn repeats_at_once(&self, p: &Position, mv: &Move) -> (r: bool)
        requires
            playable(*p, *mv),
        ensures
            r == self@.trail.seen_lately(hash_s(after(*p, *mv))),
    {
        let next: Position = p.play(mv);
        self.trail.was_seen(crate::board::position_key(&next))
    }
}

/// A draw is worth to one side what it costs the other: the value belongs to
/// the root, not to whoever is on the move.
pub proof fn law_draw_alternates(c: Setup, ply: int)
    requires
        0 <= ply,
    ensures
        draw_s(c, ply + 1) == -draw_s(c, ply),
{
}

}
