//! Everything the staged ordering remembers.
use vstd::prelude::*;
use crate::lore::{bumped, within, Slots};
use crate::moves::Move;
use crate::position::Position;
use crate::score::{hist_add, hist_bonus, hist_bonus_s};
use crate::trail::move_ok;
use crate::types::Square;

verus! {

pub const BUTTERFLY_MAX: i32 = 15_000;

pub const PIECE_TO_MAX: i32 = 30_000;

/// One entry credited or charged.
pub fn saturate_add(v: &mut Vec<i32>, i: usize, bonus: i32, max: i32)
    requires
        0 < max <= 46_340,
        i < old(v)@.len(),
        within(old(v)@, old(v)@.len() as int, max as int),
        -max <= bonus <= max,
    ensures
        final(v)@ == bumped(old(v)@, i as int, bonus as int, max as int),
        within(final(v)@, old(v)@.len() as int, max as int),
{
    let mut e: i32 = v[i];
    hist_add(&mut e, bonus, max);
    v.set(i, e);
}

fn clear_all(v: &mut Vec<i32>)
    ensures
        final(v)@ == Seq::new(old(v)@.len(), |i: int| 0i32),
{
    let n: usize = v.len();
    let mut i: usize = 0;
    while i < n
        invariant
            i <= n,
            n == v@.len(),
            n == old(v)@.len(),
            forall|j: int| 0 <= j < i ==> v@[j] == 0,
        decreases n - i,
    {
        v.set(i, 0);
        i = i + 1;
    }
    assert(v@ =~= Seq::new(old(v)@.len(), |i: int| 0i32));
}

/// By origin and destination, for one side.
pub struct Butterfly {
    pub data: Vec<i32>,
}

impl View for Butterfly {
    type V = Seq<i32>;

    open spec fn view(&self) -> Seq<i32> {
        self.data@
    }
}

pub open spec fn butterfly_at(from: int, to: int) -> int {
    from * 64 + to
}

impl Butterfly {
    pub open spec fn wf(&self) -> bool {
        within(self@, 4096, BUTTERFLY_MAX as int)
    }

    pub fn new() -> (r: Self)
        ensures
            r.wf(),
            r@ == Seq::new(4096, |i: int| 0i32),
    {
        let r = Butterfly { data: vec![0i32; 4096] };
        assert(r@ =~= Seq::new(4096, |i: int| 0i32));
        r
    }

    pub fn get(&self, from: Square, to: Square) -> (r: i32)
        requires
            self.wf(),
            from < 64,
            to < 64,
        ensures
            r == self@[butterfly_at(from as int, to as int)],
            -BUTTERFLY_MAX <= r <= BUTTERFLY_MAX,
    {
        self.data[from as usize * 64 + to as usize]
    }

    pub fn credit(&mut self, from: Square, to: Square, bonus: i32)
        requires
            old(self).wf(),
            from < 64,
            to < 64,
            -BUTTERFLY_MAX <= bonus <= BUTTERFLY_MAX,
        ensures
            final(self).wf(),
            final(self)@ == bumped(
                old(self)@,
                butterfly_at(from as int, to as int),
                bonus as int,
                BUTTERFLY_MAX as int,
            ),
    {
        saturate_add(&mut self.data, from as usize * 64 + to as usize, bonus, BUTTERFLY_MAX);
    }

    pub fn clear(&mut self)
        requires
            old(self).wf(),
        ensures
            final(self).wf(),
            final(self)@ == Seq::new(4096, |i: int| 0i32),
    {
        clear_all(&mut self.data);
    }
}

/// By piece and destination, one of these per origin and destination of an
/// earlier move.
pub struct PieceTo {
    pub data: Vec<i32>,
}

impl View for PieceTo {
    type V = Seq<i32>;

    open spec fn view(&self) -> Seq<i32> {
        self.data@
    }
}

pub open spec fn piece_to_at(piece: int, to: int) -> int {
    piece * 64 + to
}

impl PieceTo {
    pub open spec fn wf(&self) -> bool {
        within(self@, 384, PIECE_TO_MAX as int)
    }

    pub fn new() -> (r: Self)
        ensures
            r.wf(),
            r@ == Seq::new(384, |i: int| 0i32),
    {
        let r = PieceTo { data: vec![0i32; 384] };
        assert(r@ =~= Seq::new(384, |i: int| 0i32));
        r
    }

    pub fn get(&self, piece: usize, to: Square) -> (r: i32)
        requires
            self.wf(),
            piece < 6,
            to < 64,
        ensures
            r == self@[piece_to_at(piece as int, to as int)],
            -PIECE_TO_MAX <= r <= PIECE_TO_MAX,
    {
        self.data[piece * 64 + to as usize]
    }

    pub fn credit(&mut self, piece: usize, to: Square, bonus: i32)
        requires
            old(self).wf(),
            piece < 6,
            to < 64,
            -PIECE_TO_MAX <= bonus <= PIECE_TO_MAX,
        ensures
            final(self).wf(),
            final(self)@ == bumped(
                old(self)@,
                piece_to_at(piece as int, to as int),
                bonus as int,
                PIECE_TO_MAX as int,
            ),
    {
        saturate_add(&mut self.data, piece * 64 + to as usize, bonus, PIECE_TO_MAX);
    }

    pub fn clear(&mut self)
        requires
            old(self).wf(),
        ensures
            final(self).wf(),
            final(self)@ == Seq::new(384, |i: int| 0i32),
    {
        clear_all(&mut self.data);
    }
}

pub struct Histories {
    pub continuation: Vec<PieceTo>,
    pub main: [Butterfly; 2],
    pub killers: Vec<[Option<Move>; 3]>,
}

/// The contents of the staged ordering's tables.
#[verifier::ext_equal]
pub struct HistoriesView {
    pub cont: Seq<Seq<i32>>,
    pub main: Seq<Seq<i32>>,
    pub killers: Seq<[Option<Move>; 3]>,
}

pub open spec fn killers_ok(k: [Option<Move>; 3]) -> bool {
    move_ok(k[0]) && move_ok(k[1]) && move_ok(k[2])
}

impl HistoriesView {
    pub open spec fn wf(self) -> bool {
        &&& self.cont.len() == 4096
        &&& forall|i: int|
            0 <= i < 4096 ==> within(#[trigger] self.cont[i], 384, PIECE_TO_MAX as int)
        &&& self.main.len() == 2
        &&& forall|i: int|
            0 <= i < 2 ==> within(#[trigger] self.main[i], 4096, BUTTERFLY_MAX as int)
        &&& forall|i: int| 0 <= i < self.killers.len() ==> killers_ok(#[trigger] self.killers[i])
    }
}

impl View for Histories {
    type V = HistoriesView;

    open spec fn view(&self) -> HistoriesView {
        HistoriesView {
            cont: Seq::new(self.continuation@.len(), |i: int| self.continuation@[i]@),
            main: Seq::new(2, |i: int| self.main[i]@),
            killers: self.killers@,
        }
    }
}

/// The opponent's last three moves: one, three and five plies back.
pub open spec fn reply_back(k: int) -> int {
    1 + 2 * k
}

pub open spec fn reply_slot(played: Seq<Option<Move>>, ply: int, k: int) -> Option<usize> {
    if ply >= reply_back(k) {
        match played[ply - reply_back(k)] {
            Some(m) => Some((m.from * 64 + m.to) as usize),
            None => None,
        }
    } else {
        None
    }
}

pub open spec fn reply_slots(played: Seq<Option<Move>>, ply: int) -> Slots {
    [reply_slot(played, ply, 0), reply_slot(played, ply, 1), reply_slot(played, ply, 2)]
}

pub open spec fn replies_ok(slots: Slots) -> bool {
    forall|k: int| 0 <= k < 3 ==> (#[trigger] slots[k] matches Some(i) ==> i < 4096)
}

/// The continuation readings of the first `n` slots, the reply carrying double.
pub open spec fn reply_sum(h: HistoriesView, slots: Slots, pc: int, to: int, n: int) -> int
    decreases n,
{
    if n <= 0 {
        0
    } else {
        reply_sum(h, slots, pc, to, n - 1) + match slots[n - 1] {
            Some(i) => (if n == 1 {
                2int
            } else {
                1
            }) * h.cont[i as int][piece_to_at(pc, to)],
            None => 0,
        }
    }
}

/// What the tables think of a quiet move.
#[verifier::opaque]
pub open spec fn quiet_score_s(h: HistoriesView, p: Position, mv: Move, slots: Slots) -> int {
    match p.piece_s(mv.from as int) {
        None => 0,
        Some((pt, c)) => h.main[p.us()][butterfly_at(mv.from as int, mv.to as int)] + reply_sum(
            h,
            slots,
            pt.index(),
            mv.to as int,
            3,
        ),
    }
}

pub open spec fn cont_credited(
    c: Seq<Seq<i32>>,
    slots: Slots,
    pc: int,
    to: int,
    bonus: int,
    n: int,
) -> Seq<Seq<i32>>
    decreases n,
{
    if n <= 0 {
        c
    } else {
        let d = cont_credited(c, slots, pc, to, bonus, n - 1);
        match slots[n - 1] {
            Some(i) => d.update(
                i as int,
                bumped(d[i as int], piece_to_at(pc, to), bonus, PIECE_TO_MAX as int),
            ),
            None => d,
        }
    }
}

/// One move credited, or charged, in every table that speaks of it.
#[verifier::opaque]
pub open spec fn bonus_added(
    h: HistoriesView,
    p: Position,
    mv: Move,
    piece: int,
    slots: Slots,
    bonus: int,
) -> HistoriesView {
    HistoriesView {
        main: h.main.update(
            p.us(),
            bumped(
                h.main[p.us()],
                butterfly_at(mv.from as int, mv.to as int),
                bonus,
                BUTTERFLY_MAX as int,
            ),
        ),
        cont: cont_credited(h.cont, slots, piece, mv.to as int, bonus, 3),
        ..h
    }
}

/// The killers of a ply with this move first, unless it is there already.
pub open spec fn killers_with(k: [Option<Move>; 3], mv: Move) -> [Option<Move>; 3] {
    if k[0] == Some(mv) || k[1] == Some(mv) || k[2] == Some(mv) {
        k
    } else {
        [Some(mv), k[0], k[1]]
    }
}

/// A move that caused a cutoff: credited, and remembered as a killer.
pub open spec fn best_credited(
    h: HistoriesView,
    p: Position,
    mv: Move,
    piece: int,
    slots: Slots,
    ply: int,
    depth: int,
) -> HistoriesView {
    let b = bonus_added(h, p, mv, piece, slots, hist_bonus_s(depth));
    HistoriesView { killers: b.killers.update(ply, killers_with(b.killers[ply], mv)), ..b }
}

pub open spec fn blank_histories(max_ply: nat) -> HistoriesView {
    HistoriesView {
        cont: Seq::new(4096, |i: int| Seq::new(384, |j: int| 0i32)),
        main: Seq::new(2, |i: int| Seq::new(4096, |j: int| 0i32)),
        killers: Seq::new(max_ply, |i: int| [None::<Move>, None::<Move>, None::<Move>]),
    }
}

impl Histories {
    pub fn new(max_ply: usize) -> (r: Self)
        ensures
            r@ == blank_histories(max_ply as nat),
            r@.wf(),
    {
        let mut continuation: Vec<PieceTo> = Vec::new();
        let mut n: usize = 0;
        while n < 4096
            invariant
                n <= 4096,
                continuation@.len() == n,
                forall|i: int|
                    0 <= i < n ==> (#[trigger] continuation@[i])@ == Seq::new(384, |j: int| 0i32),
            decreases 4096 - n,
        {
            continuation.push(PieceTo::new());
            n = n + 1;
        }
        let none: [Option<Move>; 3] = [None, None, None];
        let ghost blank = blank_histories(max_ply as nat);
        let mut killers: Vec<[Option<Move>; 3]> = Vec::new();
        let mut n: usize = 0;
        while n < max_ply
            invariant
                n <= max_ply,
                none@ == seq![None::<Move>, None::<Move>, None::<Move>],
                killers@.len() == n,
                forall|i: int| 0 <= i < n ==> #[trigger] killers@[i] == none,
            decreases max_ply - n,
        {
            killers.push(none);
            n = n + 1;
        }
        let r = Histories { continuation, main: [Butterfly::new(), Butterfly::new()], killers };
        assert(none =~= [None::<Move>, None::<Move>, None::<Move>]);
        assert(r@.killers =~= blank.killers);
        assert(r@.main =~= blank.main);
        assert(r@.cont =~= blank.cont);
        r
    }

    pub fn clear(&mut self)
        requires
            old(self)@.wf(),
        ensures
            final(self)@ == blank_histories(old(self)@.killers.len()),
            final(self)@.wf(),
    {
        let n: usize = self.killers.len();
        *self = Histories::new(n);
    }

    fn slot_of(played: &Vec<Option<Move>>, ply: usize, k: usize) -> (r: Option<usize>)
        requires
            ply <= played@.len(),
            forall|i: int| 0 <= i < played@.len() ==> move_ok(#[trigger] played@[i]),
            k < 3,
        ensures
            r == reply_slot(played@, ply as int, k as int),
            r matches Some(i) ==> i < 4096,
    {
        let back: usize = 1 + 2 * k;
        if ply >= back {
            match played[ply - back] {
                Some(m) => {
                    assert(move_ok(played@[ply - back]));
                    Some(m.from as usize * 64 + m.to as usize)
                },
                None => None,
            }
        } else {
            None
        }
    }

    /// Which continuation tables are in reach, given the move made at each ply.
    pub fn cont_slots(played: &Vec<Option<Move>>, ply: usize) -> (r: Slots)
        requires
            ply <= played@.len(),
            forall|i: int| 0 <= i < played@.len() ==> move_ok(#[trigger] played@[i]),
        ensures
            r == reply_slots(played@, ply as int),
            replies_ok(r),
    {
        let r: Slots = [
            Self::slot_of(played, ply, 0),
            Self::slot_of(played, ply, 1),
            Self::slot_of(played, ply, 2),
        ];
        assert(r =~= reply_slots(played@, ply as int));
        r
    }

    pub fn quiet_score(&self, p: &Position, mv: Move, slots: &Slots) -> (r: i32)
        requires
            self@.wf(),
            mv.wf(),
            replies_ok(*slots),
        ensures
            r == quiet_score_s(self@, *p, mv, *slots),
            -135_000 <= r <= 135_000,
    {
        proof {
            reveal(quiet_score_s);
        }
        let side: usize = p.side.idx();
        let piece: usize = match p.piece_at(mv.from) {
            Some((pt, _)) => pt.idx(),
            None => return 0,
        };
        assert(self@.main[side as int] == self.main[side as int]@);
        let h: i32 = self.main[side].get(mv.from, mv.to);
        let mut s: i32 = 0;
        let mut k: usize = 0;
        while k < 3
            invariant
                k <= 3,
                piece < 6,
                mv.wf(),
                replies_ok(*slots),
                self@.wf(),
                s == reply_sum(self@, *slots, piece as int, mv.to as int, k as int),
                -30_000 * (k + 1) <= s <= 30_000 * (k + 1),
                k == 0 ==> s == 0,
            decreases 3 - k,
        {
            match slots[k] {
                Some(i) => {
                    assert(slots@[k as int] == Some(i));
                    assert(self@.cont[i as int] == self.continuation@[i as int]@);
                    let v: i32 = self.continuation[i].get(piece, mv.to);
                    if k == 0 {
                        s = s + 2 * v;
                    } else {
                        s = s + v;
                    }
                },
                None => {},
            }
            k = k + 1;
        }
        h + s
    }

    pub fn add_bonus(&mut self, p: &Position, mv: Move, piece: usize, slots: &Slots, bonus: i32)
        requires
            old(self)@.wf(),
            mv.wf(),
            piece < 6,
            replies_ok(*slots),
            -BUTTERFLY_MAX <= bonus <= BUTTERFLY_MAX,
        ensures
            final(self)@.wf(),
            final(self)@ == bonus_added(
                old(self)@,
                *p,
                mv,
                piece as int,
                *slots,
                bonus as int,
            ),
    {
        proof {
            reveal(bonus_added);
        }
        let side: usize = p.side.idx();
        assert(self@.main[side as int] == self.main[side as int]@);
        self.main[side].credit(mv.from, mv.to, bonus);
        let ghost mid = HistoriesView {
            main: old(self)@.main.update(
                side as int,
                bumped(
                    old(self)@.main[side as int],
                    butterfly_at(mv.from as int, mv.to as int),
                    bonus as int,
                    BUTTERFLY_MAX as int,
                ),
            ),
            ..old(self)@
        };
        assert(self@ =~= mid);
        let mut k: usize = 0;
        while k < 3
            invariant
                k <= 3,
                piece < 6,
                mv.wf(),
                replies_ok(*slots),
                -BUTTERFLY_MAX <= bonus <= BUTTERFLY_MAX,
                self@.wf(),
                self@ == (HistoriesView {
                    cont: cont_credited(
                        mid.cont,
                        *slots,
                        piece as int,
                        mv.to as int,
                        bonus as int,
                        k as int,
                    ),
                    ..mid
                }),
            decreases 3 - k,
        {
            match slots[k] {
                Some(i) => {
                    assert(slots@[k as int] == Some(i));
                    let ghost before = self@;
                    assert(self@.cont[i as int] == self.continuation@[i as int]@);
                    self.continuation[i].credit(piece, mv.to, bonus);
                    assert(self@ =~= (HistoriesView {
                        cont: before.cont.update(
                            i as int,
                            bumped(
                                before.cont[i as int],
                                piece_to_at(piece as int, mv.to as int),
                                bonus as int,
                                PIECE_TO_MAX as int,
                            ),
                        ),
                        ..before
                    }));
                },
                None => {},
            }
            k = k + 1;
        }
    }

    /// A move that caused a cutoff: credited, and remembered as a killer. More
    /// than seventy-five plies below nothing the charge would pass the ceiling of
    /// the table it goes to.
    pub fn bestmove(
        &mut self,
        p: &Position,
        mv: Move,
        piece: usize,
        slots: &Slots,
        ply: usize,
        depth: i32,
    )
        requires
            old(self)@.wf(),
            mv.wf(),
            piece < 6,
            replies_ok(*slots),
            ply < old(self)@.killers.len(),
            -75 <= depth <= 10_737_418,
        ensures
            final(self)@.wf(),
            final(self)@ == best_credited(
                old(self)@,
                *p,
                mv,
                piece as int,
                *slots,
                ply as int,
                depth as int,
            ),
    {
        proof {
            reveal(bonus_added);
        }
        self.add_bonus(p, mv, piece, slots, hist_bonus(depth));
        let ghost mid = self@;
        let k: [Option<Move>; 3] = self.killers[ply];
        assert(killers_ok(mid.killers[ply as int]));
        if k[0] == Some(mv) || k[1] == Some(mv) || k[2] == Some(mv) {
            assert(mid.killers.update(ply as int, k) =~= mid.killers);
            return;
        }
        let next: [Option<Move>; 3] = [Some(mv), k[0], k[1]];
        assert(next =~= killers_with(k, mv));
        self.killers.set(ply, next);
        assert(self@ =~= (HistoriesView { killers: mid.killers.update(ply as int, next), ..mid }));
    }

    pub fn killers(&self, ply: usize) -> (r: [Option<Move>; 3])
        requires
            ply < self@.killers.len(),
        ensures
            r == self@.killers[ply as int],
    {
        self.killers[ply]
    }
}

/// No move is there twice.
pub open spec fn unrepeated(k: [Option<Move>; 3]) -> bool {
    &&& k[0] is Some ==> k[0] != k[1] && k[0] != k[2]
    &&& k[1] is Some ==> k[1] != k[2]
}

/// What a cutoff does to the killers: of its own ply, the move comes first and
/// the last one is forgotten, unless it is there already; those of every other
/// ply stay. No move is ever there twice.
pub proof fn law_bestmove_killers(
    h: HistoriesView,
    p: Position,
    mv: Move,
    piece: int,
    slots: Slots,
    ply: int,
    depth: int,
    other: int,
)
    requires
        0 <= ply < h.killers.len(),
        0 <= other < h.killers.len(),
        unrepeated(h.killers[other]),
    ensures
        ({
            let before = h.killers[ply];
            let next = best_credited(h, p, mv, piece, slots, ply, depth).killers;
            let there = before[0] == Some(mv) || before[1] == Some(mv) || before[2] == Some(mv);
            &&& next.len() == h.killers.len()
            &&& there ==> next[ply] == before
            &&& !there ==> next[ply][0] == Some(mv) && next[ply][1] == before[0] && next[ply][2]
                == before[1]
            &&& other != ply ==> next[other] == h.killers[other]
            &&& unrepeated(next[other])
        }),
{
    reveal(bonus_added);
}

}
