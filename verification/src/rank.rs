//! Scoring a move list and taking the best of what is left.
use vstd::prelude::*;
use crate::lore::{capt_score_s, history_s, slots_ok, Lore, LoreView, Slots};
use crate::moves::{Move, MoveFlag};
use crate::num::{idiv, imax, lemma_tdiv_bound, max2, tdiv};
use crate::position::Position;
use crate::see::{see_ge, see_ge_s};
use crate::types::PieceType;

verus! {

/// A move list with where each move goes and what the tables think of it.
pub struct Ranked {
    pub moves: Vec<Move>,
    pub scores: Vec<i32>,
    pub hist: Vec<i32>,
}

#[verifier::ext_equal]
pub struct RankedView {
    pub moves: Seq<Move>,
    pub scores: Seq<i32>,
    pub hist: Seq<i32>,
}

impl View for Ranked {
    type V = RankedView;

    open spec fn view(&self) -> RankedView {
        RankedView { moves: self.moves@, scores: self.scores@, hist: self.hist@ }
    }
}

impl RankedView {
    pub open spec fn wf(self) -> bool {
        &&& self.scores.len() == self.moves.len()
        &&& self.hist.len() == self.moves.len()
        &&& forall|i: int|
            0 <= i < self.hist.len() ==> -135_000 <= #[trigger] self.hist[i] <= 135_000
    }
}

// ---------------------------------------------------------------------------
// Picking
// ---------------------------------------------------------------------------
/// The first of the best scores from `at` up to `n`.
pub open spec fn best_upto(s: Seq<i32>, at: int, n: int) -> int
    decreases n - at,
{
    if n <= at + 1 {
        at
    } else {
        let b = best_upto(s, at, n - 1);
        if s[n - 1] > s[b] { n - 1 } else { b }
    }
}

pub open spec fn swapped<A>(s: Seq<A>, i: int, j: int) -> Seq<A> {
    s.update(i, s[j]).update(j, s[i])
}

/// The best remaining move brought to `at`, scores in step.
pub open spec fn picked(r: RankedView, at: int) -> RankedView {
    let b = best_upto(r.scores, at, r.scores.len() as int);
    RankedView {
        moves: swapped(r.moves, at, b),
        scores: swapped(r.scores, at, b),
        hist: swapped(r.hist, at, b),
    }
}

proof fn lemma_best(s: Seq<i32>, at: int, n: int)
    requires
        0 <= at < n <= s.len(),
    ensures
        at <= best_upto(s, at, n) < n,
        forall|j: int| at <= j < n ==> #[trigger] s[j] <= s[best_upto(s, at, n)],
        forall|j: int| at <= j < best_upto(s, at, n) ==> #[trigger] s[j] < s[best_upto(s, at, n)],
    decreases n - at,
{
    if n > at + 1 {
        lemma_best(s, at, n - 1);
    }
}

proof fn lemma_swapped_same<A>(s: Seq<A>, i: int, j: int)
    requires
        0 <= i < s.len(),
        0 <= j < s.len(),
    ensures
        swapped(s, i, j).to_multiset() == s.to_multiset(),
{
    broadcast use vstd::seq_lib::group_to_multiset_ensures;

    let t = s.update(i, s[j]);
    vstd::seq_lib::to_multiset_update(s, i, s[j]);
    vstd::seq_lib::to_multiset_update(t, j, s[i]);
    assert(swapped(s, i, j).to_multiset() =~= s.to_multiset());
}

/// Picking brings the first of the best remaining scores forward, keeps every
/// move with its score, and loses none.
pub proof fn law_pick(r: RankedView, at: int)
    requires
        r.wf(),
        0 <= at < r.moves.len(),
    ensures
        ({
            let q = picked(r, at);
            let b = best_upto(r.scores, at, r.scores.len() as int);
            &&& q.wf()
            &&& q.moves.to_multiset() == r.moves.to_multiset()
            &&& q.moves.len() == r.moves.len()
            &&& q.moves[at] == r.moves[b] && q.scores[at] == r.scores[b] && q.hist[at] == r.hist[b]
            &&& forall|j: int| at <= j < r.scores.len() ==> #[trigger] r.scores[j] <= q.scores[at]
            &&& forall|j: int| at <= j < b ==> #[trigger] r.scores[j] < q.scores[at]
            &&& forall|j: int| 0 <= j < at ==> #[trigger] q.moves[j] == r.moves[j]
        }),
{
    lemma_best(r.scores, at, r.scores.len() as int);
    lemma_swapped_same(r.moves, at, best_upto(r.scores, at, r.scores.len() as int));
}

impl Ranked {
    /// Bring the best remaining move to `at`, keeping scores in step.
    pub fn pick(&mut self, at: usize)
        requires
            old(self)@.wf(),
            at < old(self)@.moves.len(),
        ensures
            final(self)@.wf(),
            final(self)@ == picked(old(self)@, at as int),
            final(self)@.moves.len() == old(self)@.moves.len(),
            forall|m: Move|
                #[trigger] final(self)@.moves.contains(m) <==> old(self)@.moves.contains(m),
    {
        let n: usize = self.moves.len();
        let mut best: usize = at;
        let mut j: usize = at + 1;
        while j < n
            invariant
                at < j <= n,
                at <= best < j,
                n == self@.moves.len(),
                self@.wf(),
                self@ == old(self)@,
                best == best_upto(self@.scores, at as int, j as int),
            decreases n - j,
        {
            if self.scores[j] > self.scores[best] {
                best = j;
            }
            j = j + 1;
        }
        let (ma, mb) = (self.moves[at], self.moves[best]);
        let (sa, sb): (i32, i32) = (self.scores[at], self.scores[best]);
        let (ha, hb): (i32, i32) = (self.hist[at], self.hist[best]);
        self.moves.set(at, mb);
        self.moves.set(best, ma);
        self.scores.set(at, sb);
        self.scores.set(best, sa);
        self.hist.set(at, hb);
        self.hist.set(best, ha);
        proof {
            assert(self@ =~= picked(old(self)@, at as int));
            let a = old(self)@.moves;
            let b = self@.moves;
            lemma_swapped_same(a, at as int, best as int);
            assert forall|m: Move| #[trigger] b.contains(m) <==> a.contains(m) by {
                vstd::seq_lib::to_multiset_contains(a, m);
                vstd::seq_lib::to_multiset_contains(b, m);
            }
        }
    }
}

// ---------------------------------------------------------------------------
// Scoring
// ---------------------------------------------------------------------------
/// The worth of what stands on a square, zero where nothing does.
pub open spec fn worth_at(p: Position, s: int) -> int {
    match p.piece_s(s) {
        Some((pt, c)) => pt.worth(),
        None => 0,
    }
}

/// What a capture takes.
pub open spec fn victim_worth(p: Position, mv: Move) -> int {
    if mv.flag == MoveFlag::EnPassant { 100 } else { worth_at(p, mv.to as int) }
}

/// How bad a capture may be and still be tried early: deep in the tree there is
/// room to find out.
pub open spec fn early_bar(depth: int) -> int {
    max2(-50 * (depth - 1), -250)
}

/// Where a move goes in the list: the table's move, good captures, queening,
/// killers, quiet moves by history, bad captures.
#[verifier::opaque]
pub open spec fn order_s(
    l: LoreView,
    captures_on: bool,
    p: Position,
    mv: Move,
    tt_move: Option<Move>,
    ply: int,
    depth: int,
    slots: Slots,
) -> int {
    if Some(mv) == tt_move {
        1_000_000
    } else if mv.captures() {
        let mvv = victim_worth(p, mv) * 16 - worth_at(p, mv.from as int);
        let past = tdiv(capt_score_s(l, captures_on, p, mv), 16);
        if see_ge_s(p, mv, early_bar(depth)) {
            600_000 + mvv + past
        } else {
            -600_000 + mvv + past
        }
    } else if mv.promotion == Some(PieceType::Queen) {
        500_000
    } else if l.killers[ply * 3] == Some(mv) {
        400_000
    } else if l.killers[ply * 3 + 1] == Some(mv) {
        390_000
    } else if l.killers[ply * 3 + 2] == Some(mv) {
        380_000
    } else {
        history_s(l, p, mv, slots)
    }
}

pub open spec fn ranked_s(
    l: LoreView,
    captures_on: bool,
    p: Position,
    moves: Seq<Move>,
    tt_move: Option<Move>,
    ply: int,
    depth: int,
    slots: Slots,
) -> RankedView {
    RankedView {
        moves,
        scores: Seq::new(
            moves.len(),
            |i: int| order_s(l, captures_on, p, moves[i], tt_move, ply, depth, slots) as i32,
        ),
        hist: Seq::new(moves.len(), |i: int| history_s(l, p, moves[i], slots) as i32),
    }
}

fn value_at(p: &Position, s: u8) -> (r: i32)
    requires
        s < 64,
    ensures
        r == worth_at(*p, s as int),
        0 <= r <= 20_000,
{
    match p.piece_at(s) {
        Some((pt, _)) => pt.value(),
        None => 0,
    }
}

fn order_of(
    l: &Lore,
    captures_on: bool,
    p: &Position,
    mv: &Move,
    tt_move: Option<Move>,
    ply: usize,
    depth: i32,
    slots: &Slots,
    hist: i32,
) -> (r: i32)
    requires
        l@.wf(),
        mv.wf(),
        ply < 128,
        -42_949_671 <= depth <= 42_949_673,
        slots_ok(*slots),
        hist == history_s(l@, *p, *mv, *slots),
    ensures
        r == order_s(l@, captures_on, *p, *mv, tt_move, ply as int, depth as int, *slots),
{
    proof {
        reveal(order_s);
    }
    if Some(*mv) == tt_move {
        return 1_000_000;
    }
    if mv.is_capture() {
        let victim: i32 = if mv.flag == MoveFlag::EnPassant {
            PieceType::Pawn.value()
        } else {
            value_at(p, mv.to)
        };
        let attacker: i32 = value_at(p, mv.from);
        let mvv: i32 = victim * 16 - attacker;
        let bar: i32 = imax(-50 * (depth - 1), -250);
        let taken: i32 = l.capt_score(captures_on, p, mv);
        let past: i32 = idiv(taken, 16);
        proof {
            lemma_tdiv_bound(taken as int, 16);
        }
        return if see_ge(p, mv, bar) {
            600_000 + mvv + past
        } else {
            -600_000 + mvv + past
        };
    }
    if mv.promotion == Some(PieceType::Queen) {
        return 500_000;
    }
    let at: usize = ply * 3;
    if l.killers[at] == Some(*mv) {
        400_000
    } else if l.killers[at + 1] == Some(*mv) {
        390_000
    } else if l.killers[at + 2] == Some(*mv) {
        380_000
    } else {
        hist
    }
}

/// Score every move once. The caller then takes the best remaining one at a
/// time, because most nodes cut off after two or three. The depth is held to
/// where fifty times it still fits.
pub fn score_moves(
    l: &Lore,
    captures_on: bool,
    p: &Position,
    moves: Vec<Move>,
    tt_move: Option<Move>,
    ply: usize,
    depth: i32,
    slots: &Slots,
) -> (r: Ranked)
    requires
        l@.wf(),
        forall|i: int| 0 <= i < moves@.len() ==> (#[trigger] moves@[i]).wf(),
        ply < 128,
        -42_949_671 <= depth <= 42_949_673,
        slots_ok(*slots),
    ensures
        r@.wf(),
        r@ == ranked_s(
            l@,
            captures_on,
            *p,
            moves@,
            tt_move,
            ply as int,
            depth as int,
            *slots,
        ),
{
    let mut scores: Vec<i32> = Vec::new();
    let mut hist: Vec<i32> = Vec::new();
    let mut i: usize = 0;
    while i < moves.len()
        invariant
            i <= moves@.len(),
            l@.wf(),
            forall|i: int| 0 <= i < moves@.len() ==> (#[trigger] moves@[i]).wf(),
            ply < 128,
            -42_949_671 <= depth <= 42_949_673,
            slots_ok(*slots),
            scores@.len() == i,
            hist@.len() == i,
            forall|j: int|
                0 <= j < i ==> #[trigger] scores@[j] == order_s(
                    l@,
                    captures_on,
                    *p,
                    moves@[j],
                    tt_move,
                    ply as int,
                    depth as int,
                    *slots,
                ),
            forall|j: int|
                0 <= j < i ==> #[trigger] hist@[j] == history_s(l@, *p, moves@[j], *slots),
            forall|j: int| 0 <= j < i ==> -135_000 <= #[trigger] hist@[j] <= 135_000,
        decreases moves@.len() - i,
    {
        let mv: Move = moves[i];
        assert(moves@[i as int].wf());
        let h: i32 = l.history_of(p, mv, slots);
        let o: i32 = order_of(l, captures_on, p, &mv, tt_move, ply, depth, slots, h);
        hist.push(h);
        scores.push(o);
        i = i + 1;
    }
    let r = Ranked { moves, scores, hist };
    assert(r@ =~= ranked_s(
        l@,
        captures_on,
        *p,
        moves@,
        tt_move,
        ply as int,
        depth as int,
        *slots,
    ));
    r
}

/// The class a move is tried in, the best first.
pub open spec fn class_s(
    l: LoreView,
    p: Position,
    mv: Move,
    tt_move: Option<Move>,
    ply: int,
    depth: int,
) -> int {
    if Some(mv) == tt_move {
        0
    } else if mv.captures() {
        if see_ge_s(p, mv, early_bar(depth)) { 1 } else { 5 }
    } else if mv.promotion == Some(PieceType::Queen) {
        2
    } else if crate::lore::is_killer(l, ply, mv) {
        3
    } else {
        4
    }
}

/// The table's move comes first, then the captures that pass the exchange test,
/// queening, the killers, the other quiet moves, and last the captures that
/// fail it, whatever the histories say.
pub proof fn law_order_by_class(
    l: LoreView,
    captures_on: bool,
    p: Position,
    a: Move,
    b: Move,
    tt_move: Option<Move>,
    ply: int,
    depth: int,
    slots: Slots,
)
    requires
        l.wf(),
        slots_ok(slots),
        a.wf(),
        b.wf(),
        0 <= ply < 128,
        class_s(l, p, a, tt_move, ply, depth) < class_s(l, p, b, tt_move, ply, depth),
    ensures
        order_s(l, captures_on, p, a, tt_move, ply, depth, slots) > order_s(
            l,
            captures_on,
            p,
            b,
            tt_move,
            ply,
            depth,
            slots,
        ),
{
    lemma_class_range(l, captures_on, p, a, tt_move, ply, depth, slots);
    lemma_class_range(l, captures_on, p, b, tt_move, ply, depth, slots);
}

proof fn lemma_class_range(
    l: LoreView,
    captures_on: bool,
    p: Position,
    mv: Move,
    tt_move: Option<Move>,
    ply: int,
    depth: int,
    slots: Slots,
)
    requires
        l.wf(),
        slots_ok(slots),
        mv.wf(),
        0 <= ply < 128,
    ensures
        ({
            let o = order_s(l, captures_on, p, mv, tt_move, ply, depth, slots);
            let k = class_s(l, p, mv, tt_move, ply, depth);
            &&& k == 0 ==> o == 1_000_000
            &&& k == 1 ==> 570_000 < o < 1_000_000
            &&& k == 2 ==> o == 500_000
            &&& k == 3 ==> 380_000 <= o <= 400_000
            &&& k == 4 ==> -135_000 <= o <= 135_000
            &&& k == 5 ==> o < -270_000
            &&& 0 <= k <= 5
        }),
{
    reveal(order_s);
    reveal(capt_score_s);
    let past = capt_score_s(l, captures_on, p, mv);
    crate::lore::lemma_scores_bounded(l, captures_on, p, mv, slots);
    lemma_tdiv_bound(past, 16);
    assert(-1024 <= tdiv(past, 16) <= 1024);
}

/// What the histories say of each move depends on the position, the moves and
/// the histories alone: not on the table's move, the depth, the ply, the killers
/// or the captures. It is nothing for a capture or a promotion, and never further
/// from zero than the ceilings of the tables allow.
pub proof fn law_history_column(
    l: LoreView,
    killers: Seq<Option<Move>>,
    capthist: Seq<i32>,
    p: Position,
    moves: Seq<Move>,
    slots: Slots,
    a: (bool, Option<Move>, int, int),
    b: (bool, Option<Move>, int, int),
)
    requires
        l.wf(),
        slots_ok(slots),
        forall|i: int| 0 <= i < moves.len() ==> (#[trigger] moves[i]).wf(),
    ensures
        ({
            let m = LoreView { killers, capthist, ..l };
            let r = ranked_s(l, a.0, p, moves, a.1, a.2, a.3, slots);
            let q = ranked_s(m, b.0, p, moves, b.1, b.2, b.3, slots);
            &&& r.hist == q.hist
            &&& r.hist.len() == moves.len()
            &&& forall|i: int|
                0 <= i < moves.len() ==> -135_000 <= #[trigger] r.hist[i] <= 135_000 && (
                !moves[i].quiet() ==> r.hist[i] == 0)
        }),
{
    let m = LoreView { killers, capthist, ..l };
    let r = ranked_s(l, a.0, p, moves, a.1, a.2, a.3, slots);
    let q = ranked_s(m, b.0, p, moves, b.1, b.2, b.3, slots);
    assert forall|i: int| 0 <= i < moves.len() implies {
        &&& #[trigger] r.hist[i] == q.hist[i]
        &&& -135_000 <= r.hist[i] <= 135_000
        &&& !moves[i].quiet() ==> r.hist[i] == 0
    } by {
        let mv = moves[i];
        crate::lore::lemma_scores_bounded(l, true, p, mv, slots);
        reveal(history_s);
        reveal_with_fuel(crate::lore::cont_sum, 4);
    }
    assert(r.hist =~= q.hist);
}

}
