//! The transposition table.
use vstd::prelude::*;
use crate::moves::Move;
use crate::num::clamp3;

verus! {

/// What a stored score means.
#[derive(Clone, Copy, PartialEq, Eq, Structural, Debug)]
pub enum Bound {
    NoBound,
    Exact,
    Lower,
    Upper,
}

/// The static evaluation of an entry that has none.
pub const TT_EVAL_NONE: i16 = -32768;

/// No stored score is further from zero than this.
pub const TT_SCORE_MAX: i32 = 32000;

#[derive(Clone, Copy)]
pub struct TtEntry {
    pub key: u64,
    pub depth: i32,
    pub score: i32,
    pub bound: Bound,
    pub best: Option<Move>,
    pub pv: bool,
    pub static_eval: i16,
    pub age: u8,
}

impl TtEntry {
    pub open spec fn wf(self) -> bool {
        &&& -TT_SCORE_MAX <= self.score <= TT_SCORE_MAX
        &&& self.best matches Some(m) ==> m.wf()
    }

    pub open spec fn bounded(self) -> bool {
        self.bound != Bound::NoBound
    }

    /// There is a score to use, not only an evaluation.
    pub fn has_bound(&self) -> (r: bool)
        ensures
            r == self.bounded(),
    {
        self.bound != Bound::NoBound
    }
}

/// The contents of the table.
#[verifier::ext_equal]
pub struct Table {
    pub slots: Seq<Option<TtEntry>>,
    pub age: u8,
}

pub open spec fn slot_of(t: Table, hash: u64) -> int {
    hash as int % t.slots.len() as int
}

/// The entry stored under this key.
pub open spec fn probe_s(t: Table, hash: u64) -> Option<TtEntry> {
    match t.slots[slot_of(t, hash)] {
        Some(e) => if e.key == hash { Some(e) } else { None },
        None => None,
    }
}

/// What a slot holds once a result has been offered to it: the result, unless
/// the slot keeps a deeper one of the same search for another position. The
/// same position keeps its move when the result has none.
pub open spec fn offered(old: Option<TtEntry>, new: TtEntry) -> TtEntry {
    match old {
        None => new,
        Some(o) => if o.key == new.key {
            TtEntry {
                best: match new.best {
                    Some(m) => Some(m),
                    None => o.best,
                },
                ..new
            }
        } else if o.age != new.age || new.depth >= o.depth {
            new
        } else {
            o
        },
    }
}

#[verifier::opaque]
pub open spec fn store_s(
    t: Table,
    hash: u64,
    depth: int,
    score: int,
    bound: Bound,
    best: Option<Move>,
    pv: bool,
    static_eval: i16,
) -> Table {
    let i = slot_of(t, hash);
    let new = TtEntry {
        key: hash,
        depth: depth as i32,
        score: clamp3(score, -TT_SCORE_MAX as int, TT_SCORE_MAX as int) as i32,
        bound,
        best,
        pv,
        static_eval,
        age: t.age,
    };
    Table { slots: t.slots.update(i, Some(offered(t.slots[i], new))), age: t.age }
}

/// An evaluation alone: added to the entry of its position, or given a slot
/// that is free or left over from an earlier search.
#[verifier::opaque]
pub open spec fn store_eval_s(t: Table, hash: u64, static_eval: i16) -> Table {
    let i = slot_of(t, hash);
    let new = TtEntry {
        key: hash,
        depth: 0,
        score: 0,
        bound: Bound::NoBound,
        best: None,
        pv: false,
        static_eval,
        age: t.age,
    };
    match t.slots[i] {
        None => Table { slots: t.slots.update(i, Some(new)), age: t.age },
        Some(o) => if o.key == hash {
            Table { slots: t.slots.update(i, Some(TtEntry { static_eval, ..o })), age: t.age }
        } else if o.age != t.age {
            Table { slots: t.slots.update(i, Some(new)), age: t.age }
        } else {
            t
        },
    }
}

pub open spec fn next_age(t: Table) -> Table {
    Table { slots: t.slots, age: t.age.wrapping_add(1u8) }
}

pub open spec fn cleared(t: Table) -> Table {
    Table { slots: Seq::new(t.slots.len(), |i: int| None), age: 0 }
}

pub struct TranspositionTable {
    pub slots: Vec<Option<TtEntry>>,
    pub age: u8,
}

impl View for TranspositionTable {
    type V = Table;

    open spec fn view(&self) -> Table {
        Table { slots: self.slots@, age: self.age }
    }
}

impl TranspositionTable {
    pub open spec fn wf(&self) -> bool {
        &&& self.slots@.len() > 0
        &&& forall|i: int|
            0 <= i < self.slots@.len() ==> (#[trigger] self.slots@[i] matches Some(e) ==> e.wf())
    }

    /// An empty table of about this many megabytes.
    pub fn new(mb: usize) -> (r: Self)
        requires
            1 <= mb <= 65536,
        ensures
            r.wf(),
            r@.slots == Seq::new((mb * 16384) as nat, |i: int| None::<TtEntry>),
            r@.age == 0,
    {
        let n: usize = mb * 16384;
        let none: Option<TtEntry> = None;
        let slots: Vec<Option<TtEntry>> = vec![none; n];
        assert(slots@ =~= Seq::new((mb * 16384) as nat, |i: int| None::<TtEntry>));
        TranspositionTable { slots, age: 0 }
    }

    fn slot(&self, hash: u64) -> (r: usize)
        requires
            self.wf(),
        ensures
            r == slot_of(self@, hash),
            r < self.slots@.len(),
    {
        (hash % self.slots.len() as u64) as usize
    }

    pub fn probe(&self, hash: u64) -> (r: Option<TtEntry>)
        requires
            self.wf(),
        ensures
            r == probe_s(self@, hash),
            r matches Some(e) ==> e.wf(),
    {
        let i: usize = self.slot(hash);
        match self.slots[i] {
            Some(e) => if e.key == hash {
                Some(e)
            } else {
                None
            },
            None => None,
        }
    }

    pub fn store(
        &mut self,
        hash: u64,
        depth: i32,
        score: i32,
        bound: Bound,
        best: Option<Move>,
        pv: bool,
        static_eval: i16,
    )
        requires
            old(self).wf(),
            best matches Some(m) ==> m.wf(),
        ensures
            final(self).wf(),
            final(self)@ == store_s(
                old(self)@,
                hash,
                depth as int,
                score as int,
                bound,
                best,
                pv,
                static_eval,
            ),
    {
        proof {
            reveal(store_s);
        }
        let i: usize = self.slot(hash);
        let kept: i32 = if score < -TT_SCORE_MAX {
            -TT_SCORE_MAX
        } else if score > TT_SCORE_MAX {
            TT_SCORE_MAX
        } else {
            score
        };
        let mut new = TtEntry {
            key: hash,
            depth,
            score: kept,
            bound,
            best,
            pv,
            static_eval,
            age: self.age,
        };
        match self.slots[i] {
            None => {},
            Some(o) => {
                if o.key == hash {
                    if best.is_none() {
                        new.best = o.best;
                    }
                } else if o.age != self.age || depth >= o.depth {
                } else {
                    new = o;
                }
            },
        }
        self.slots.set(i, Some(new));
        assert(self@ =~= store_s(
            old(self)@,
            hash,
            depth as int,
            score as int,
            bound,
            best,
            pv,
            static_eval,
        ));
    }

    pub fn store_eval_only(&mut self, hash: u64, static_eval: i16)
        requires
            old(self).wf(),
        ensures
            final(self).wf(),
            final(self)@ == store_eval_s(old(self)@, hash, static_eval),
    {
        proof {
            reveal(store_eval_s);
        }
        let i: usize = self.slot(hash);
        let new = TtEntry {
            key: hash,
            depth: 0,
            score: 0,
            bound: Bound::NoBound,
            best: None,
            pv: false,
            static_eval,
            age: self.age,
        };
        match self.slots[i] {
            None => {
                self.slots.set(i, Some(new));
            },
            Some(o) => {
                if o.key == hash {
                    let mut e = o;
                    e.static_eval = static_eval;
                    self.slots.set(i, Some(e));
                } else if o.age != self.age {
                    self.slots.set(i, Some(new));
                }
            },
        }
        assert(self@ =~= store_eval_s(old(self)@, hash, static_eval));
    }

    /// A new search has begun: what is stored from now on is younger than
    /// everything that is there.
    pub fn increase_gen(&mut self)
        requires
            old(self).wf(),
        ensures
            final(self).wf(),
            final(self)@ == next_age(old(self)@),
    {
        self.age = self.age.wrapping_add(1);
    }

    pub fn clear(&mut self)
        requires
            old(self).wf(),
        ensures
            final(self).wf(),
            final(self)@ == cleared(old(self)@),
    {
        let n: usize = self.slots.len();
        let none: Option<TtEntry> = None;
        self.slots = vec![none; n];
        self.age = 0;
        assert(self@ =~= cleared(old(self)@));
    }
}

/// What is stored under a key is found under it, unless the slot kept a deeper
/// result of the same search for another position.
pub proof fn law_stored_result_found(
    t: Table,
    hash: u64,
    depth: int,
    score: int,
    bound: Bound,
    best: Option<Move>,
    pv: bool,
    static_eval: i16,
)
    requires
        t.slots.len() > 0,
        t.slots[slot_of(t, hash)] matches Some(o) ==> o.key == hash || o.age != t.age || depth
            >= o.depth,
        i32::MIN <= depth <= i32::MAX,
    ensures
        ({
            let e = probe_s(store_s(t, hash, depth, score, bound, best, pv, static_eval), hash);
            &&& e matches Some(e)
            &&& e.depth == depth
            &&& e.score == clamp3(score, -TT_SCORE_MAX as int, TT_SCORE_MAX as int)
            &&& e.bound == bound
            &&& best is Some ==> e.best == best
            &&& e.pv == pv
            &&& e.static_eval == static_eval
        }),
{
    reveal(store_s);
}

}
