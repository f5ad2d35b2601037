//! What the search keeps per ply: the line being searched, the best line found,
//! and the keys that repetitions are measured against.
use vstd::prelude::*;
use crate::lore::Slots;
use crate::lore::slots_ok;
use crate::moves::Move;
use crate::nnue::SCORE_CAP;
use crate::num::{min2, umin};
use crate::score::MAX_PLY;

verus! {

/// How far above the root the continuation tables may reach into the game.
pub const PRE_MOVES: usize = 6;

/// How far back each continuation slot looks.
pub open spec fn cont_back(k: int) -> int {
    if k == 0 {
        1
    } else if k == 1 {
        2
    } else {
        4
    }
}

#[verifier::ext_equal]
pub struct TrailView {
    /// What was played at each ply, as piece and destination.
    pub played: Seq<Option<(usize, usize)>>,
    /// Keys of the game so far, then of the path.
    pub keys: Seq<u64>,
    /// Best lines, one row per ply.
    pub pv: Seq<Option<Move>>,
    pub pv_len: Seq<usize>,
    /// The static score at each ply.
    pub eval_stack: Seq<i32>,
    /// The move played at each ply.
    pub played_moves: Seq<Option<Move>>,
    /// The last moves of the game, latest first.
    pub pre_moves: Seq<Option<Move>>,
    /// Which plies were reached by passing.
    pub null_at: Seq<bool>,
}

pub open spec fn move_ok(m: Option<Move>) -> bool {
    m matches Some(m) ==> m.wf()
}

impl TrailView {
    pub open spec fn wf(self) -> bool {
        &&& self.played.len() == 128
        &&& forall|i: int|
            0 <= i < 128 ==> (#[trigger] self.played[i] matches Some((pc, to)) ==> pc < 6 && to
                < 64)
        &&& self.pv.len() == 16384
        &&& self.pv_len.len() == 128
        &&& forall|i: int| 0 <= i < 128 ==> #[trigger] self.pv_len[i] <= 128
        &&& self.eval_stack.len() == 128
        &&& forall|i: int|
            0 <= i < 128 ==> -SCORE_CAP <= #[trigger] self.eval_stack[i] <= SCORE_CAP
        &&& self.played_moves.len() == 128
        &&& forall|i: int| 0 <= i < 128 ==> move_ok(#[trigger] self.played_moves[i])
        &&& self.pre_moves.len() == 6
        &&& forall|i: int| 0 <= i < 6 ==> move_ok(#[trigger] self.pre_moves[i])
        &&& self.null_at.len() == 128
    }

    pub open spec fn with_key(self, k: u64) -> TrailView {
        TrailView { keys: self.keys.push(k), ..self }
    }

    pub open spec fn without_key(self) -> TrailView {
        TrailView { keys: self.keys.drop_last(), ..self }
    }

    pub open spec fn without_line(self, ply: int) -> TrailView {
        TrailView { pv_len: self.pv_len.update(ply, 0usize), ..self }
    }

    pub open spec fn with_eval(self, ply: int, v: int) -> TrailView {
        TrailView { eval_stack: self.eval_stack.update(ply, v as i32), ..self }
    }

    pub open spec fn with_played(self, ply: int, v: Option<(usize, usize)>) -> TrailView {
        TrailView { played: self.played.update(ply, v), ..self }
    }

    pub open spec fn with_move(self, ply: int, mv: Move) -> TrailView {
        TrailView { played_moves: self.played_moves.update(ply, Some(mv)), ..self }
    }

    pub open spec fn with_null(self, ply: int, v: bool) -> TrailView {
        TrailView { null_at: self.null_at.update(ply, v), ..self }
    }

    /// The previous ply was a pass.
    pub open spec fn just_passed(self, ply: int) -> bool {
        ply > 0 && self.null_at[ply - 1]
    }

    /// The last move, as piece and destination.
    pub open spec fn last_played(self, ply: int) -> Option<(usize, usize)> {
        if ply > 0 { self.played[ply - 1] } else { None }
    }

    /// What the last move changed about the position key.
    pub open spec fn delta(self) -> u64 {
        let n = self.keys.len() as int;
        if n >= 2 { self.keys[n - 1] ^ self.keys[n - 2] } else { 0 }
    }

    /// Which continuation table slot `k` points at. Above the root the piece is
    /// not known, so the origin square stands in for it.
    pub open spec fn slot(self, ply: int, k: int) -> Option<usize> {
        let back = cont_back(k);
        if ply >= back {
            match self.played[ply - back] {
                Some((pc, to)) => Some((pc * 64 + to) as usize),
                None => None,
            }
        } else {
            match self.pre_moves[back - ply - 1] {
                Some(m) => Some(((m.from % 6) * 64 + m.to) as usize),
                None => None,
            }
        }
    }

    pub open spec fn slots(self, ply: int) -> Slots {
        [self.slot(ply, 0), self.slot(ply, 1), self.slot(ply, 2)]
    }

    /// The move `back` plies before `ply`, reaching into the game.
    pub open spec fn back(self, ply: int, back: int) -> Option<Move> {
        if ply >= back {
            self.played_moves[ply - back]
        } else if back - ply - 1 < 6 {
            self.pre_moves[back - ply - 1]
        } else {
            None
        }
    }

    /// This key has occurred with the same side to move since the last move
    /// that cannot be taken back.
    pub open spec fn repeated(self, hash: u64, halfmove: int) -> bool {
        exists|j: int|
            2 <= j <= halfmove && j < self.keys.len() && j % 2 == 0
                && #[trigger] self.keys[self.keys.len() - 1 - j] == hash
    }

    /// Drawn by the fifty move rule or by repetition.
    pub open spec fn drawn(self, hash: u64, halfmove: int) -> bool {
        halfmove >= 100 || self.repeated(hash, halfmove)
    }

    /// This key is among the last sixty-four.
    pub open spec fn seen_lately(self, hash: u64) -> bool {
        exists|j: int|
            0 <= j < min2(64, self.keys.len() as int)
                && #[trigger] self.keys[self.keys.len() - 1 - j] == hash
    }

    /// The best line of `ply`: this move, then the best line of the next ply.
    pub open spec fn with_line(self, ply: int, mv: Move) -> TrailView {
        let child = min2(self.pv_len[ply + 1] as int, MAX_PLY - ply - 2);
        TrailView {
            pv: Seq::new(
                16384,
                |k: int|
                    if k == ply * 128 {
                        Some(mv)
                    } else if ply * 128 < k <= ply * 128 + child {
                        self.pv[(ply + 1) * 128 + (k - ply * 128 - 1)]
                    } else {
                        self.pv[k]
                    },
            ),
            pv_len: self.pv_len.update(ply, (child + 1) as usize),
            ..self
        }
    }

    /// The best line found from a ply.
    pub open spec fn line(self, ply: int) -> Seq<Option<Move>> {
        self.pv.subrange(ply * 128, ply * 128 + self.pv_len[ply])
    }

    /// The best lines of the plies above this one are the same.
    pub open spec fn same_above(self, other: TrailView, ply: int) -> bool {
        &&& self.pv_len.take(ply) == other.pv_len.take(ply)
        &&& self.pv.take(ply * 128) == other.pv.take(ply * 128)
    }
}

/// A trail nothing has walked yet.
pub open spec fn blank_trail() -> TrailView {
    TrailView {
        played: Seq::new(128, |i: int| None),
        keys: Seq::empty(),
        pv: Seq::new(16384, |i: int| None),
        pv_len: Seq::new(128, |i: int| 0usize),
        eval_stack: Seq::new(128, |i: int| 0i32),
        played_moves: Seq::new(128, |i: int| None),
        pre_moves: Seq::new(6, |i: int| None),
        null_at: Seq::new(128, |i: int| false),
    }
}

/// The last six moves, latest first.
pub open spec fn latest(moves: Seq<Move>) -> Seq<Option<Move>> {
    Seq::new(
        6,
        |i: int|
            if i < moves.len() {
                Some(moves[moves.len() - 1 - i])
            } else {
                None
            },
    )
}

pub struct Trail {
    pub played: Vec<Option<(usize, usize)>>,
    pub keys: Vec<u64>,
    pub pv: Vec<Option<Move>>,
    pub pv_len: Vec<usize>,
    pub eval_stack: Vec<i32>,
    pub played_moves: Vec<Option<Move>>,
    pub pre_moves: Vec<Option<Move>>,
    pub null_at: Vec<bool>,
}

impl View for Trail {
    type V = TrailView;

    open spec fn view(&self) -> TrailView {
        TrailView {
            played: self.played@,
            keys: self.keys@,
            pv: self.pv@,
            pv_len: self.pv_len@,
            eval_stack: self.eval_stack@,
            played_moves: self.played_moves@,
            pre_moves: self.pre_moves@,
            null_at: self.null_at@,
        }
    }
}

impl Trail {
    pub fn new() -> (r: Self)
        ensures
            r@ == blank_trail(),
            r@.wf(),
    {
        let no_piece: Option<(usize, usize)> = None;
        let no_move: Option<Move> = None;
        let r = Trail {
            played: vec![no_piece; 128],
            keys: Vec::new(),
            pv: vec![no_move; 16384],
            pv_len: vec![0usize; 128],
            eval_stack: vec![0i32; 128],
            played_moves: vec![no_move; 128],
            pre_moves: vec![no_move; 6],
            null_at: vec![false; 128],
        };
        assert(r@ =~= blank_trail());
        r
    }

    pub fn push_key(&mut self, k: u64)
        requires
            old(self)@.wf(),
        ensures
            final(self)@.wf(),
            final(self)@ == old(self)@.with_key(k),
    {
        self.keys.push(k);
    }

    pub fn pop_key(&mut self)
        requires
            old(self)@.wf(),
            old(self)@.keys.len() > 0,
        ensures
            final(self)@.wf(),
            final(self)@ == old(self)@.without_key(),
    {
        self.keys.pop();
    }

    pub fn clear_line(&mut self, ply: usize)
        requires
            old(self)@.wf(),
            ply < 128,
        ensures
            final(self)@.wf(),
            final(self)@ == old(self)@.without_line(ply as int),
    {
        self.pv_len.set(ply, 0);
    }

    pub fn set_eval(&mut self, ply: usize, v: i32)
        requires
            old(self)@.wf(),
            ply < 128,
            -SCORE_CAP <= v <= SCORE_CAP,
        ensures
            final(self)@.wf(),
            final(self)@ == old(self)@.with_eval(ply as int, v as int),
    {
        self.eval_stack.set(ply, v);
    }

    pub fn set_played(&mut self, ply: usize, v: Option<(usize, usize)>)
        requires
            old(self)@.wf(),
            ply < 128,
            v matches Some((pc, to)) ==> pc < 6 && to < 64,
        ensures
            final(self)@.wf(),
            final(self)@ == old(self)@.with_played(ply as int, v),
    {
        self.played.set(ply, v);
    }

    pub fn set_move(&mut self, ply: usize, mv: Move)
        requires
            old(self)@.wf(),
            ply < 128,
            mv.wf(),
        ensures
            final(self)@.wf(),
            final(self)@ == old(self)@.with_move(ply as int, mv),
    {
        self.played_moves.set(ply, Some(mv));
    }

    pub fn set_null(&mut self, ply: usize, v: bool)
        requires
            old(self)@.wf(),
            ply < 128,
        ensures
            final(self)@.wf(),
            final(self)@ == old(self)@.with_null(ply as int, v),
    {
        self.null_at.set(ply, v);
    }

    pub fn just_passed(&self, ply: usize) -> (r: bool)
        requires
            self@.wf(),
            ply < 128,
        ensures
            r == self@.just_passed(ply as int),
    {
        ply > 0 && self.null_at[ply - 1]
    }

    pub fn last_played(&self, ply: usize) -> (r: Option<(usize, usize)>)
        requires
            self@.wf(),
            ply < 128,
        ensures
            r == self@.last_played(ply as int),
    {
        if ply > 0 {
            self.played[ply - 1]
        } else {
            None
        }
    }

    /// What the last move changed about the position key.
    pub fn hash_delta(&self) -> (r: u64)
        ensures
            r == self@.delta(),
    {
        let n: usize = self.keys.len();
        if n >= 2 {
            self.keys[n - 1] ^ self.keys[n - 2]
        } else {
            0
        }
    }

    fn slot_of(&self, ply: usize, k: usize) -> (r: Option<usize>)
        requires
            self@.wf(),
            ply < 128,
            k < 3,
        ensures
            r == self@.slot(ply as int, k as int),
            r matches Some(i) ==> i < 384,
    {
        let back: usize = if k == 0 {
            1
        } else if k == 1 {
            2
        } else {
            4
        };
        if ply >= back {
            match self.played[ply - back] {
                Some((pc, to)) => {
                    assert(self@.played[ply - back] == Some((pc, to)));
                    Some(pc * 64 + to)
                },
                None => None,
            }
        } else {
            match self.pre_moves[back - ply - 1] {
                Some(m) => {
                    assert(move_ok(self@.pre_moves[back - ply - 1]));
                    Some((m.from as usize % 6) * 64 + m.to as usize)
                },
                None => None,
            }
        }
    }

    /// Which continuation table each slot points at, this ply: one, two and
    /// four plies back.
    pub fn cont_slots(&self, ply: usize) -> (r: Slots)
        requires
            self@.wf(),
            ply < 128,
        ensures
            r == self@.slots(ply as int),
            slots_ok(r),
    {
        let r: Slots = [self.slot_of(ply, 0), self.slot_of(ply, 1), self.slot_of(ply, 2)];
        assert(r =~= self@.slots(ply as int));
        r
    }

    /// The move `back` plies before `ply`, reaching into the game when the
    /// search runs out.
    pub fn move_back(&self, ply: usize, back: usize) -> (r: Option<Move>)
        requires
            self@.wf(),
            ply < 128,
            back > 0,
        ensures
            r == self@.back(ply as int, back as int),
    {
        if ply >= back {
            self.played_moves[ply - back]
        } else if back - ply - 1 < PRE_MOVES {
            self.pre_moves[back - ply - 1]
        } else {
            None
        }
    }

    /// Has this position already occurred? One earlier occurrence is enough to
    /// treat it as drawn inside the search. Walking back from the top, where
    /// offset zero is this position, the positions with the same side to move are
    /// the even offsets, and the position `halfmove` plies ago is the first since
    /// the last move that cannot be taken back.
    pub fn is_repetition(&self, hash: u64, halfmove: u16) -> (r: bool)
        ensures
            r == self@.repeated(hash, halfmove as int),
    {
        let n: usize = self.keys.len();
        let back: usize = halfmove as usize;
        let mut j: usize = 2;
        while j <= back && j < n
            invariant
                n == self@.keys.len(),
                back == halfmove,
                2 <= j <= back + 2,
                j % 2 == 0,
                forall|i: int|
                    2 <= i < j && i <= back && i < n && i % 2 == 0 ==> #[trigger] self@.keys[n - 1
                        - i] != hash,
            decreases back + 2 - j,
        {
            if self.keys[n - 1 - j] == hash {
                assert(self@.keys[self@.keys.len() - 1 - j] == hash);
                return true;
            }
            j = j + 2;
        }
        false
    }

    pub fn is_draw(&self, hash: u64, halfmove: u16) -> (r: bool)
        ensures
            r == self@.drawn(hash, halfmove as int),
    {
        halfmove >= 100 || self.is_repetition(hash, halfmove)
    }

    /// Is this key among the last sixty-four?
    pub fn was_seen(&self, hash: u64) -> (r: bool)
        ensures
            r == self@.seen_lately(hash),
    {
        let n: usize = self.keys.len();
        let back: usize = umin(64, n);
        let mut j: usize = 0;
        while j < back
            invariant
                n == self@.keys.len(),
                back == min2(64, n as int),
                j <= back,
                forall|i: int| 0 <= i < j ==> #[trigger] self@.keys[n - 1 - i] != hash,
            decreases back - j,
        {
            if self.keys[n - 1 - j] == hash {
                assert(self@.keys[self@.keys.len() - 1 - j] == hash);
                return true;
            }
            j = j + 1;
        }
        false
    }

    /// Put a move in front of the best line of the next ply.
    pub fn update_pv(&mut self, ply: usize, mv: Move)
        requires
            old(self)@.wf(),
            ply + 1 < 128,
        ensures
            final(self)@.wf(),
            final(self)@ == old(self)@.with_line(ply as int, mv),
    {
        let child: usize = umin(self.pv_len[ply + 1], MAX_PLY - ply - 2);
        self.pv.set(ply * 128, Some(mv));
        let mut i: usize = 0;
        while i < child
            invariant
                i <= child,
                child <= 126 - ply,
                ply + 1 < 128,
                self@.wf(),
                self@.pv_len == old(self)@.pv_len,
                self@ == (TrailView { pv: self@.pv, ..old(self)@ }),
                forall|k: int|
                    0 <= k < 16384 ==> #[trigger] self@.pv[k] == (if k == ply * 128 {
                        Some(mv)
                    } else if ply * 128 < k <= ply * 128 + i {
                        old(self)@.pv[(ply + 1) * 128 + (k - ply * 128 - 1)]
                    } else {
                        old(self)@.pv[k]
                    }),
            decreases child - i,
        {
            let m: Option<Move> = self.pv[(ply + 1) * 128 + i];
            self.pv.set(ply * 128 + i + 1, m);
            i = i + 1;
        }
        self.pv_len.set(ply, child + 1);
        assert(self@ =~= old(self)@.with_line(ply as int, mv));
    }

    /// The moves actually played before this search started, so that the
    /// continuation tables have something to reply to at the root.
    pub fn set_game_moves(&mut self, moves: &[Move])
        requires
            old(self)@.wf(),
            forall|i: int| 0 <= i < moves@.len() ==> (#[trigger] moves@[i]).wf(),
        ensures
            final(self)@.wf(),
            final(self)@ == (TrailView { pre_moves: latest(moves@), ..old(self)@ }),
    {
        let n: usize = moves.len();
        let mut i: usize = 0;
        while i < PRE_MOVES
            invariant
                i <= 6,
                n == moves@.len(),
                forall|i: int| 0 <= i < moves@.len() ==> (#[trigger] moves@[i]).wf(),
                self@.wf(),
                self@ == (TrailView { pre_moves: self@.pre_moves, ..old(self)@ }),
                forall|k: int| 0 <= k < i ==> #[trigger] self@.pre_moves[k] == latest(moves@)[k],
            decreases 6 - i,
        {
            let m: Option<Move> = if i < n {
                Some(moves[n - 1 - i])
            } else {
                None
            };
            self.pre_moves.set(i, m);
            i = i + 1;
        }
        assert(self@ =~= (TrailView { pre_moves: latest(moves@), ..old(self)@ }));
    }
}

/// The best line of a ply is the move and then the best line of the next ply,
/// as far as it fits.
pub proof fn law_line_extends(t: TrailView, ply: int, mv: Move)
    requires
        t.wf(),
        0 <= ply,
        ply + 1 < 128,
    ensures
        t.pv_len[ply + 1] <= MAX_PLY - ply - 2 ==> t.with_line(ply, mv).line(ply) == seq![
            Some(mv),
        ] + t.line(ply + 1),
        t.with_line(ply, mv).same_above(t, ply),
{
    let u = t.with_line(ply, mv);
    assert(u.pv_len.take(ply) =~= t.pv_len.take(ply));
    assert(u.pv.take(ply * 128) =~= t.pv.take(ply * 128));
    if t.pv_len[ply + 1] <= MAX_PLY - ply - 2 {
        assert(u.line(ply) =~= seq![Some(mv)] + t.line(ply + 1));
    }
}

/// What is the same down to one ply is the same down to an earlier one.
pub proof fn lemma_same_above(a: TrailView, b: TrailView, ply: int, above: int)
    requires
        a.wf(),
        b.wf(),
        0 <= above <= ply <= 128,
        a.same_above(b, ply),
    ensures
        a.same_above(b, above),
        forall|i: int| 0 <= i < ply ==> #[trigger] a.pv_len[i] == b.pv_len[i],
        forall|i: int| 0 <= i < ply * 128 ==> #[trigger] a.pv[i] == b.pv[i],
{
    assert forall|i: int| 0 <= i < ply implies #[trigger] a.pv_len[i] == b.pv_len[i] by {
        assert(a.pv_len.take(ply)[i] == b.pv_len.take(ply)[i]);
    }
    assert forall|i: int| 0 <= i < ply * 128 implies #[trigger] a.pv[i] == b.pv[i] by {
        assert(a.pv.take(ply * 128)[i] == b.pv.take(ply * 128)[i]);
    }
    assert(a.pv_len.take(above) =~= b.pv_len.take(above));
    assert(a.pv.take(above * 128) =~= b.pv.take(above * 128));
}

/// Forgetting the best line of a ply leaves those above it.
pub proof fn lemma_without_line(t: TrailView, ply: int)
    requires
        t.wf(),
        0 <= ply < 128,
    ensures
        t.without_line(ply).same_above(t, ply),
{
    assert(t.without_line(ply).pv_len.take(ply) =~= t.pv_len.take(ply));
}

/// One earlier occurrence of a position since the last move that cannot be taken
/// back makes it a draw, the very first position after that move included.
pub proof fn law_one_occurrence_is_enough(t: TrailView, hash: u64, halfmove: int, j: int)
    requires
        2 <= j <= halfmove,
        j < t.keys.len(),
        j % 2 == 0,
        t.keys[t.keys.len() - 1 - j] == hash,
    ensures
        t.drawn(hash, halfmove),
{
}

}
