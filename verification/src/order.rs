//! The staged move picker.
use vstd::prelude::*;
use crate::board::Board;
use crate::histories::{quiet_score_s, replies_ok, Histories, HistoriesView};
use crate::lore::Slots;
use crate::movegen::forcing_upto;
use crate::moves::{all_wf, Move, MoveFlag};
use crate::num::imax;
use crate::position::{occ_s, Position};
use crate::rank::early_bar;
use crate::see::{see_ge, see_ge_s};
use crate::types::PieceType;

verus! {

/// The stages a move can come from, in the order they are tried.
#[derive(Clone, Copy, PartialEq, Eq, Structural, Debug)]
pub enum Stage {
    Hash,
    CapturesInit,
    Captures,
    CapturesEnd,
    Killers,
    QuietInit,
    Quiet,
    BadCapturesInit,
    BadCaptures,
    Done,
}

/// Hands out moves one at a time.
pub struct MoveOrder {
    pub stage: Stage,
    pub hash_move: Option<Move>,
    pub killer: Option<Move>,
    pub depth: i32,
    pub quiescence: bool,
    pub captures: Vec<Move>,
    pub quiets: Vec<Move>,
    /// Captures that failed the exchange test, kept for the last stage.
    pub bad: Vec<Move>,
    pub idx: usize,
}

#[verifier::ext_equal]
pub struct OrderView {
    pub stage: Stage,
    pub hash_move: Option<Move>,
    pub killer: Option<Move>,
    pub depth: int,
    pub quiescence: bool,
    pub captures: Seq<Move>,
    pub quiets: Seq<Move>,
    pub bad: Seq<Move>,
    pub idx: int,
}

impl View for MoveOrder {
    type V = OrderView;

    open spec fn view(&self) -> OrderView {
        OrderView {
            stage: self.stage,
            hash_move: self.hash_move,
            killer: self.killer,
            depth: self.depth as int,
            quiescence: self.quiescence,
            captures: self.captures@,
            quiets: self.quiets@,
            bad: self.bad@,
            idx: self.idx as int,
        }
    }
}

impl OrderView {
    /// The depth is held to where a thousand times it still fits.
    pub open spec fn wf(self) -> bool {
        &&& all_wf(self.captures)
        &&& all_wf(self.quiets)
        &&& all_wf(self.bad)
        &&& -2_147_483 <= self.depth <= 2_147_483
    }
}

// ---------------------------------------------------------------------------
// Sorting
// ---------------------------------------------------------------------------
/// Where a score of `sc` belongs when it is moved down from `i`: behind the
/// nearest score that is not smaller.
pub open spec fn place(s: Seq<i32>, i: int, sc: int) -> int
    decreases i,
{
    if i > 0 && s[i - 1] < sc { place(s, i - 1, sc) } else { i }
}

/// The element at `i` moved down to `j`, those between moved up one.
pub open spec fn moved<A>(s: Seq<A>, i: int, j: int) -> Seq<A> {
    s.remove(i).insert(j, s[i])
}

/// The first `n` scores sorted, leaving those at or below the threshold behind.
pub open spec fn scores_sorted(s: Seq<i32>, threshold: int, n: int) -> Seq<i32>
    decreases n,
{
    if n <= 1 {
        s
    } else {
        let t = scores_sorted(s, threshold, n - 1);
        if t[n - 1] <= threshold { t } else { moved(t, n - 1, place(t, n - 1, t[n - 1] as int)) }
    }
}

/// A list kept in step with its scores.
pub open spec fn moves_sorted<A>(m: Seq<A>, s: Seq<i32>, threshold: int, n: int) -> Seq<A>
    decreases n,
{
    if n <= 1 {
        m
    } else {
        let t = scores_sorted(s, threshold, n - 1);
        let l = moves_sorted(m, s, threshold, n - 1);
        if t[n - 1] <= threshold { l } else { moved(l, n - 1, place(t, n - 1, t[n - 1] as int)) }
    }
}

proof fn lemma_place(s: Seq<i32>, i: int, sc: int)
    requires
        0 <= i <= s.len(),
    ensures
        0 <= place(s, i, sc) <= i,
        forall|k: int| place(s, i, sc) <= k < i ==> #[trigger] s[k] < sc,
        place(s, i, sc) > 0 ==> s[place(s, i, sc) - 1] >= sc,
    decreases i,
{
    if i > 0 && s[i - 1] < sc {
        lemma_place(s, i - 1, sc);
    }
}

pub proof fn lemma_sorted_len(m: Seq<Move>, s: Seq<i32>, threshold: int, n: int)
    requires
        m.len() == s.len(),
        n <= s.len(),
    ensures
        scores_sorted(s, threshold, n).len() == s.len(),
        moves_sorted(m, s, threshold, n).len() == s.len(),
    decreases n,
{
    if n > 1 {
        lemma_sorted_len(m, s, threshold, n - 1);
        let t = scores_sorted(s, threshold, n - 1);
        lemma_place(t, n - 1, t[n - 1] as int);
    }
}

/// Insertion sort that leaves everything at or below the threshold behind.
fn partial_sort(list: &mut Vec<Move>, scores: &mut Vec<i32>, threshold: i32)
    requires
        old(list)@.len() == old(scores)@.len(),
    ensures
        final(scores)@ == scores_sorted(
            old(scores)@,
            threshold as int,
            old(scores)@.len() as int,
        ),
        final(list)@ == moves_sorted(
            old(list)@,
            old(scores)@,
            threshold as int,
            old(scores)@.len() as int,
        ),
        final(list)@.len() == old(list)@.len(),
{
    let n: usize = list.len();
    let ghost m0 = list@;
    let ghost s0 = scores@;
    let ghost th = threshold as int;
    let mut i: usize = 1;
    if n == 0 {
        return;
    }
    while i < n
        invariant
            1 <= i <= n,
            n == m0.len(),
            n == s0.len(),
            th == threshold,
            scores@ == scores_sorted(s0, th, i as int),
            list@ == moves_sorted(m0, s0, th, i as int),
            scores@.len() == n,
            list@.len() == n,
        decreases n - i,
    {
        let sc: i32 = scores[i];
        let m: Move = list[i];
        if sc > threshold {
            let ghost t = scores@;
            let ghost l = list@;
            let mut j: usize = i;
            while j > 0 && scores[j - 1] < sc
                invariant
                    0 <= j <= i < n,
                    n == t.len(),
                    n == l.len(),
                    scores@.len() == n,
                    list@.len() == n,
                    sc == t[i as int],
                    m == l[i as int],
                    place(t, i as int, sc as int) == place(t, j as int, sc as int),
                    forall|k: int|
                        0 <= k < n ==> #[trigger] scores@[k] == (if j < k <= i {
                            t[k - 1]
                        } else {
                            t[k]
                        }),
                    forall|k: int|
                        0 <= k < n ==> #[trigger] list@[k] == (if j < k <= i {
                            l[k - 1]
                        } else {
                            l[k]
                        }),
                decreases j,
            {
                let a: Move = list[j - 1];
                let b: i32 = scores[j - 1];
                assert(b == t[j - 1]);
                list.set(j, a);
                scores.set(j, b);
                j = j - 1;
            }
            proof {
                if j > 0 {
                    assert(scores@[j - 1] == t[j - 1]);
                }
                assert(place(t, i as int, sc as int) == j);
            }
            list.set(j, m);
            scores.set(j, sc);
            assert(scores@ =~= moved(t, i as int, j as int));
            assert(list@ =~= moved(l, i as int, j as int));
        }
        i = i + 1;
    }
}

/// Every score above the threshold has nothing smaller in front of it.
pub open spec fn led(s: Seq<i32>, threshold: int, n: int) -> bool {
    forall|i: int, j: int|
        0 <= i < j < n && #[trigger] s[j] > threshold ==> #[trigger] s[i] >= s[j]
}

proof fn lemma_sorted_led(s: Seq<i32>, threshold: int, n: int)
    requires
        0 <= n <= s.len(),
    ensures
        led(scores_sorted(s, threshold, n), threshold, n),
        scores_sorted(s, threshold, n).len() == s.len(),
    decreases n,
{
    if n > 1 {
        lemma_sorted_led(s, threshold, n - 1);
        let t = scores_sorted(s, threshold, n - 1);
        let sc = t[n - 1];
        if sc > threshold {
            let j = place(t, n - 1, sc as int);
            lemma_place(t, n - 1, sc as int);
            let u = moved(t, n - 1, j);
            assert forall|a: int, b: int|
                0 <= a < b < n && #[trigger] u[b] > threshold implies #[trigger] u[a] >= u[b] by {
                if b < j {
                } else if b == j {
                    if a < j - 1 {
                        assert(t[a] >= t[j - 1]);
                    }
                } else {
                    assert(u[b] == t[b - 1]);
                    assert(t[b - 1] < sc);
                    if a < j {
                        assert(u[a] == t[a]);
                    } else if a > j {
                        assert(u[a] == t[a - 1]);
                    }
                }
            }
        }
    }
}

proof fn lemma_moved_same<A>(s: Seq<A>, i: int, j: int)
    requires
        0 <= j <= i < s.len(),
    ensures
        moved(s, i, j).to_multiset() == s.to_multiset(),
{
    broadcast use vstd::seq_lib::group_to_multiset_ensures;

    let r = s.remove(i);
    vstd::seq_lib::to_multiset_remove(s, i);
    vstd::seq_lib::to_multiset_insert(r, j, s[i]);
    assert(moved(s, i, j).to_multiset() =~= s.to_multiset());
}

proof fn lemma_sorted_same(m: Seq<Move>, s: Seq<i32>, threshold: int, n: int)
    requires
        m.len() == s.len(),
        0 <= n <= s.len(),
    ensures
        scores_sorted(s, threshold, n).to_multiset() == s.to_multiset(),
        moves_sorted(m, s, threshold, n).to_multiset() == m.to_multiset(),
    decreases n,
{
    if n > 1 {
        lemma_sorted_same(m, s, threshold, n - 1);
        lemma_sorted_len(m, s, threshold, n - 1);
        let t = scores_sorted(s, threshold, n - 1);
        let l = moves_sorted(m, s, threshold, n - 1);
        if t[n - 1] > threshold {
            let j = place(t, n - 1, t[n - 1] as int);
            lemma_place(t, n - 1, t[n - 1] as int);
            lemma_moved_same(t, n - 1, j);
            lemma_moved_same(l, n - 1, j);
        }
    }
}

/// Whether place `a` comes before place `b`: those above the threshold first and
/// by their scores, the earlier of two equal ones first; the others as they were.
pub open spec fn precedes(s: Seq<i32>, threshold: int, a: int, b: int) -> bool {
    if s[b] > threshold {
        s[a] > s[b] || s[a] == s[b] && a < b
    } else {
        s[a] > threshold || a < b
    }
}

/// Where each element of the sorted list came from.
pub open spec fn origins(s: Seq<i32>, threshold: int, n: int) -> Seq<int> {
    moves_sorted(Seq::new(s.len(), |i: int| i), s, threshold, n)
}

/// The first `n` places of a list are taken from the first `n`, in order, and the
/// others are still where they were.
pub open spec fn arranged(s: Seq<i32>, threshold: int, from: Seq<int>, n: int) -> bool {
    &&& from.len() == s.len()
    &&& from.no_duplicates()
    &&& forall|i: int| 0 <= i < n ==> 0 <= #[trigger] from[i] < n
    &&& forall|i: int| n <= i < s.len() ==> #[trigger] from[i] == i
    &&& forall|i: int, j: int|
        0 <= i < j < n ==> precedes(s, threshold, #[trigger] from[i], #[trigger] from[j])
}

proof fn lemma_arranged(m: Seq<Move>, s: Seq<i32>, threshold: int, n: int)
    requires
        m.len() == s.len(),
        0 <= n <= s.len(),
    ensures
        ({
            let from = origins(s, threshold, n);
            &&& arranged(s, threshold, from, n)
            &&& scores_sorted(s, threshold, n).len() == s.len()
            &&& moves_sorted(m, s, threshold, n).len() == s.len()
            &&& forall|i: int|
                0 <= i < s.len() ==> scores_sorted(s, threshold, n)[i] == s[#[trigger] from[i]]
            &&& forall|i: int|
                0 <= i < s.len() ==> moves_sorted(m, s, threshold, n)[i] == m[#[trigger] from[i]]
        }),
    decreases n,
{
    if n > 1 {
        lemma_arranged(m, s, threshold, n - 1);
        let from = origins(s, threshold, n - 1);
        let t = scores_sorted(s, threshold, n - 1);
        assert(from[n - 1] == n - 1);
        let sc = t[n - 1];
        assert(sc == s[n - 1]);
        let next = origins(s, threshold, n);
        if sc > threshold {
            let j = place(t, n - 1, sc as int);
            lemma_place(t, n - 1, sc as int);
            assert(next == moved(from, n - 1, j));
            assert forall|i: int| 0 <= i < s.len() implies #[trigger] next[i] == (if i < j || i
                >= n {
                from[i]
            } else if i == j {
                n - 1
            } else {
                from[i - 1]
            }) by {}
            assert forall|a: int, b: int| 0 <= a < b < n implies precedes(
                s,
                threshold,
                #[trigger] next[a],
                #[trigger] next[b],
            ) by {
                if b < j {
                    assert(next[a] == from[a] && next[b] == from[b]);
                } else if b == j {
                    assert(next[a] == from[a]);
                    assert(t[a] == s[from[a]]);
                    assert(t[j - 1] == s[from[j - 1]]);
                    if a < j - 1 {
                        assert(precedes(s, threshold, from[a], from[j - 1]));
                    }
                } else {
                    assert(next[b] == from[b - 1]);
                    assert(t[b - 1] == s[from[b - 1]]);
                    if a == j {
                        assert(t[b - 1] < sc);
                    } else if a < j {
                        assert(next[a] == from[a]);
                    } else {
                        assert(next[a] == from[a - 1]);
                    }
                }
            }
            assert forall|a: int, b: int| 0 <= a < b < next.len() implies next[a] != next[b] by {
                let x = if a < j || a >= n { a } else if a == j { n - 1 } else { a - 1 };
                let y = if b < j || b >= n { b } else if b == j { n - 1 } else { b - 1 };
                assert(next[a] == from[x] && next[b] == from[y]);
                assert(x != y);
            }
        } else {
            assert(next == from);
            assert forall|a: int, b: int| 0 <= a < b < n implies precedes(
                s,
                threshold,
                #[trigger] next[a],
                #[trigger] next[b],
            ) by {}
        }
    }
}

/// Partial sorting is one rearrangement of the list, and there is only one it can
/// be: what is above the threshold comes first, from the highest score down, the
/// earlier of two equal ones first, and the rest follows as it stood.
pub proof fn law_partial_sort_is_stable(m: Seq<Move>, s: Seq<i32>, threshold: int)
    requires
        m.len() == s.len(),
    ensures
        ({
            let n = s.len() as int;
            let from = origins(s, threshold, n);
            &&& from.len() == n
            &&& from.no_duplicates()
            &&& forall|i: int| 0 <= i < n ==> 0 <= #[trigger] from[i] < n
            &&& forall|i: int|
                0 <= i < n ==> scores_sorted(s, threshold, n)[i] == s[#[trigger] from[i]]
            &&& forall|i: int|
                0 <= i < n ==> moves_sorted(m, s, threshold, n)[i] == m[#[trigger] from[i]]
            &&& forall|i: int, j: int|
                0 <= i < j < n ==> precedes(s, threshold, #[trigger] from[i], #[trigger] from[j])
        }),
{
    lemma_arranged(m, s, threshold, s.len() as int);
}

/// Partial sorting loses and invents nothing, and leaves nothing smaller in
/// front of a score above the threshold.
pub proof fn law_partial_sort(m: Seq<Move>, s: Seq<i32>, threshold: int)
    requires
        m.len() == s.len(),
    ensures
        ({
            let n = s.len() as int;
            &&& led(scores_sorted(s, threshold, n), threshold, n)
            &&& scores_sorted(s, threshold, n).to_multiset() == s.to_multiset()
            &&& moves_sorted(m, s, threshold, n).to_multiset() == m.to_multiset()
        }),
{
    lemma_sorted_led(s, threshold, s.len() as int);
    lemma_sorted_same(m, s, threshold, s.len() as int);
}

// ---------------------------------------------------------------------------
// Loading
// ---------------------------------------------------------------------------
/// The quiet moves among the first `n`.
pub open spec fn calm_upto(moves: Seq<Move>, n: int) -> Seq<Move>
    decreases n,
{
    if n <= 0 {
        seq![]
    } else if moves[n - 1].quiet() {
        calm_upto(moves, n - 1).push(moves[n - 1])
    } else {
        calm_upto(moves, n - 1)
    }
}

/// What a capture takes, a pawn where nothing stands.
pub open spec fn capture_score_s(p: Position, mv: Move) -> int {
    if mv.flag == MoveFlag::EnPassant {
        100
    } else {
        match p.piece_s(mv.to as int) {
            Some((pt, c)) => pt.worth(),
            None => 100,
        }
    }
}

pub open spec fn capture_scores(p: Position, moves: Seq<Move>) -> Seq<i32> {
    Seq::new(moves.len(), |i: int| capture_score_s(p, moves[i]) as i32)
}

pub open spec fn new_order(hash_move: Option<Move>, depth: int, quiescence: bool) -> OrderView {
    OrderView {
        stage: Stage::Hash,
        hash_move,
        killer: None,
        depth,
        quiescence,
        captures: Seq::empty(),
        quiets: Seq::empty(),
        bad: Seq::empty(),
        idx: 0,
    }
}

/// A picker given a move list: captures and promotions by what they take, quiet
/// moves as they come.
#[verifier::opaque]
pub open spec fn loaded(o: OrderView, p: Position, moves: Seq<Move>) -> OrderView {
    let captures = o.captures + forcing_upto(moves, moves.len() as int);
    OrderView {
        captures: moves_sorted(
            captures,
            capture_scores(p, captures),
            0,
            captures.len() as int,
        ),
        quiets: o.quiets + calm_upto(moves, moves.len() as int),
        ..o
    }
}

// ---------------------------------------------------------------------------
// Handing out
// ---------------------------------------------------------------------------
/// What one step of the picker comes to.
pub enum Step {
    Give(Move),
    Go,
    Stop,
}

pub open spec fn quiet_scores(
    h: HistoriesView,
    p: Position,
    moves: Seq<Move>,
    slots: Slots,
) -> Seq<i32> {
    Seq::new(moves.len(), |i: int| quiet_score_s(h, p, moves[i], slots) as i32)
}

/// This killer can be tried: quiet, on the list, and not the table's move.
pub open spec fn killer_fits(o: OrderView, k: Option<Move>) -> bool {
    k matches Some(m) && k != o.hash_move && o.quiets.contains(m)
}

pub open spec fn first_killer(o: OrderView, ks: [Option<Move>; 3]) -> Option<Move> {
    if killer_fits(o, ks[0]) {
        ks[0]
    } else if killer_fits(o, ks[1]) {
        ks[1]
    } else if killer_fits(o, ks[2]) {
        ks[2]
    } else {
        None
    }
}

/// One step of the picker.
#[verifier::opaque]
pub open spec fn step_s(
    o: OrderView,
    p: Position,
    h: HistoriesView,
    slots: Slots,
    ply: int,
) -> (OrderView, Step) {
    match o.stage {
        Stage::Hash => {
            let n = OrderView { stage: Stage::CapturesInit, ..o };
            match o.hash_move {
                Some(m) if o.captures.contains(m) || o.quiets.contains(m) => (n, Step::Give(m)),
                _ => (n, Step::Go),
            }
        },
        Stage::CapturesInit => (OrderView { stage: Stage::Captures, idx: 0, ..o }, Step::Go),
        Stage::Captures => if o.idx < o.captures.len() {
            let m = o.captures[o.idx];
            let n = OrderView { idx: o.idx + 1, ..o };
            if Some(m) == o.hash_move {
                (n, Step::Go)
            } else if see_ge_s(p, m, early_bar(o.depth)) {
                (n, Step::Give(m))
            } else {
                (OrderView { bad: o.bad.push(m), ..n }, Step::Go)
            }
        } else {
            (OrderView { stage: Stage::CapturesEnd, ..o }, Step::Go)
        },
        Stage::CapturesEnd => if o.quiescence && !p.in_check() {
            (o, Step::Stop)
        } else {
            (OrderView { stage: Stage::Killers, ..o }, Step::Go)
        },
        Stage::Killers => {
            let n = OrderView { stage: Stage::QuietInit, ..o };
            match first_killer(o, h.killers[ply]) {
                Some(m) => (OrderView { killer: Some(m), ..n }, Step::Give(m)),
                None => (n, Step::Go),
            }
        },
        Stage::QuietInit => (
            OrderView {
                stage: Stage::Quiet,
                quiets: moves_sorted(
                    o.quiets,
                    quiet_scores(h, p, o.quiets, slots),
                    -1000 * o.depth,
                    o.quiets.len() as int,
                ),
                idx: 0,
                ..o
            },
            Step::Go,
        ),
        Stage::Quiet => if o.idx < o.quiets.len() {
            let m = o.quiets[o.idx];
            let n = OrderView { idx: o.idx + 1, ..o };
            if Some(m) != o.hash_move && Some(m) != o.killer {
                (n, Step::Give(m))
            } else {
                (n, Step::Go)
            }
        } else {
            (OrderView { stage: Stage::BadCapturesInit, ..o }, Step::Go)
        },
        Stage::BadCapturesInit => (OrderView { stage: Stage::BadCaptures, idx: 0, ..o }, Step::Go),
        Stage::BadCaptures => if o.idx < o.bad.len() {
            let m = o.bad[o.idx];
            let n = OrderView { idx: o.idx + 1, ..o };
            if Some(m) != o.hash_move {
                (n, Step::Give(m))
            } else {
                (n, Step::Go)
            }
        } else {
            (OrderView { stage: Stage::Done, ..o }, Step::Go)
        },
        Stage::Done => (o, Step::Stop),
    }
}

pub open spec fn rank(s: Stage) -> int {
    match s {
        Stage::Hash => 9,
        Stage::CapturesInit => 8,
        Stage::Captures => 7,
        Stage::CapturesEnd => 6,
        Stage::Killers => 5,
        Stage::QuietInit => 4,
        Stage::Quiet => 3,
        Stage::BadCapturesInit => 2,
        Stage::BadCaptures => 1,
        Stage::Done => 0,
    }
}

pub open spec fn above0(n: int) -> int {
    if n > 0 { n } else { 0 }
}

/// A bound on everything the lists can still hold.
pub open spec fn bulk(o: OrderView) -> int {
    o.captures.len() + o.quiets.len() + o.bad.len() + (if rank(o.stage) > 7 {
        o.captures.len() as int
    } else if rank(o.stage) == 7 {
        above0(o.captures.len() - o.idx)
    } else {
        0
    })
}

pub open spec fn rest(o: OrderView) -> int {
    match o.stage {
        Stage::Captures => above0(o.captures.len() - o.idx),
        Stage::Quiet => above0(o.quiets.len() - o.idx),
        Stage::BadCaptures => above0(o.bad.len() - o.idx),
        _ => 0,
    }
}

/// How many steps are left at most.
pub open spec fn fuel(o: OrderView) -> int {
    let b = bulk(o) + 1;
    match o.stage {
        Stage::Hash => 9 * b,
        Stage::CapturesInit => 8 * b,
        Stage::Captures => 7 * b + rest(o),
        Stage::CapturesEnd => 6 * b,
        Stage::Killers => 5 * b,
        Stage::QuietInit => 4 * b,
        Stage::Quiet => 3 * b + rest(o),
        Stage::BadCapturesInit => 2 * b,
        Stage::BadCaptures => b + rest(o),
        Stage::Done => 0,
    }
}

/// Every step but the last uses some of what is left.
pub proof fn lemma_step_uses(
    o: OrderView,
    p: Position,
    h: HistoriesView,
    slots: Slots,
    ply: int,
)
    requires
        o.idx >= 0,
    ensures
        fuel(o) >= 0,
        !(step_s(o, p, h, slots, ply).1 is Stop) ==> 0 <= fuel(step_s(o, p, h, slots, ply).0)
            < fuel(o),
        step_s(o, p, h, slots, ply).1 is Stop ==> step_s(o, p, h, slots, ply).0 == o,
        step_s(o, p, h, slots, ply).0.idx >= 0,
{
    reveal(step_s);
    if o.stage == Stage::QuietInit {
        lemma_sorted_len(
            o.quiets,
            quiet_scores(h, p, o.quiets, slots),
            -1000 * o.depth,
            o.quiets.len() as int,
        );
    }
}

/// The next move, in the order of the stages.
pub open spec fn next_s(
    o: OrderView,
    p: Position,
    h: HistoriesView,
    slots: Slots,
    ply: int,
) -> (OrderView, Option<Move>)
    decreases fuel(o),
    when o.idx >= 0
{
    proof {
        lemma_step_uses(o, p, h, slots, ply);
    }
    match step_s(o, p, h, slots, ply) {
        (n, Step::Give(m)) => (n, Some(m)),
        (n, Step::Stop) => (n, None),
        (n, Step::Go) => next_s(n, p, h, slots, ply),
    }
}

/// Every move handed out uses some of what is left.
pub proof fn lemma_next_uses(
    o: OrderView,
    p: Position,
    h: HistoriesView,
    slots: Slots,
    ply: int,
)
    requires
        o.idx >= 0,
    ensures
        next_s(o, p, h, slots, ply).1 is Some ==> 0 <= fuel(next_s(o, p, h, slots, ply).0)
            < fuel(o),
        0 <= fuel(next_s(o, p, h, slots, ply).0) <= fuel(o),
        next_s(o, p, h, slots, ply).0.idx >= 0,
    decreases fuel(o),
{
    lemma_step_uses(o, p, h, slots, ply);
    match step_s(o, p, h, slots, ply) {
        (n, Step::Go) => {
            lemma_next_uses(n, p, h, slots, ply);
        },
        _ => {},
    }
}

fn has_move(v: &Vec<Move>, m: Move) -> (r: bool)
    ensures
        r == v@.contains(m),
{
    let mut i: usize = 0;
    while i < v.len()
        invariant
            i <= v@.len(),
            forall|j: int| 0 <= j < i ==> v@[j] != m,
        decreases v@.len() - i,
    {
        if v[i] == m {
            assert(v@[i as int] == m);
            return true;
        }
        i = i + 1;
    }
    false
}

impl MoveOrder {
    pub fn new(hash_move: Option<Move>, depth: i32, quiescence: bool) -> (r: Self)
        ensures
            r@ == new_order(hash_move, depth as int, quiescence),
    {
        let r = MoveOrder {
            stage: Stage::Hash,
            hash_move,
            killer: None,
            depth,
            quiescence,
            captures: Vec::new(),
            quiets: Vec::new(),
            bad: Vec::new(),
            idx: 0,
        };
        assert(r@ =~= new_order(hash_move, depth as int, quiescence));
        r
    }

    /// Most valuable victim: the attacker does not enter, because the exchange
    /// test already decides whether the capture is any good.
    fn capture_score(p: &Position, mv: Move) -> (r: i32)
        requires
            mv.wf(),
        ensures
            r == capture_score_s(*p, mv),
    {
        let victim: PieceType = if mv.flag == MoveFlag::EnPassant {
            PieceType::Pawn
        } else {
            match p.piece_at(mv.to) {
                Some((pt, _)) => pt,
                None => PieceType::Pawn,
            }
        };
        victim.value()
    }

    /// Take a move list and split it.
    pub fn load(&mut self, p: &Position, moves: &Vec<Move>)
        requires
            old(self)@.wf(),
            all_wf(moves@),
        ensures
            final(self)@.wf(),
            final(self)@ == loaded(old(self)@, *p, moves@),
    {
        let mut i: usize = 0;
        while i < moves.len()
            invariant
                i <= moves@.len(),
                all_wf(moves@),
                self@.wf(),
                self@ == (OrderView {
                    captures: old(self)@.captures + forcing_upto(moves@, i as int),
                    quiets: old(self)@.quiets + calm_upto(moves@, i as int),
                    ..old(self)@
                }),
            decreases moves@.len() - i,
        {
            let mv: Move = moves[i];
            if mv.is_quiet() {
                self.quiets.push(mv);
            } else {
                self.captures.push(mv);
            }
            assert(self@ =~= (OrderView {
                captures: old(self)@.captures + forcing_upto(moves@, i + 1),
                quiets: old(self)@.quiets + calm_upto(moves@, i + 1),
                ..old(self)@
            }));
            i = i + 1;
        }
        let ghost mid = self@;
        let mut scores: Vec<i32> = Vec::new();
        let mut i: usize = 0;
        while i < self.captures.len()
            invariant
                i <= self.captures@.len(),
                self@ == mid,
                mid.wf(),
                scores@.len() == i,
                forall|j: int|
                    0 <= j < i ==> #[trigger] scores@[j] == capture_score_s(*p, mid.captures[j]),
            decreases self.captures@.len() - i,
        {
            let mv: Move = self.captures[i];
            assert(mid.captures[i as int] == mv);
            scores.push(Self::capture_score(p, mv));
            i = i + 1;
        }
        assert(scores@ =~= capture_scores(*p, mid.captures));
        partial_sort(&mut self.captures, &mut scores, 0);
        proof {
            reveal(loaded);
            lemma_sorted_wf(mid.captures, capture_scores(*p, mid.captures), 0);
            assert(self@ =~= loaded(old(self)@, *p, moves@));
        }
    }

    fn sort_quiets(&mut self, p: &Position, hist: &Histories, slots: &Slots)
        requires
            old(self)@.wf(),
            hist@.wf(),
            replies_ok(*slots),
        ensures
            final(self)@.wf(),
            final(self)@ == (OrderView {
                quiets: moves_sorted(
                    old(self)@.quiets,
                    quiet_scores(hist@, *p, old(self)@.quiets, *slots),
                    -1000 * old(self)@.depth,
                    old(self)@.quiets.len() as int,
                ),
                ..old(self)@
            }),
    {
        let ghost mid = self@;
        let mut scores: Vec<i32> = Vec::new();
        let mut i: usize = 0;
        while i < self.quiets.len()
            invariant
                i <= self.quiets@.len(),
                self@ == mid,
                mid.wf(),
                hist@.wf(),
                replies_ok(*slots),
                scores@.len() == i,
                forall|j: int|
                    0 <= j < i ==> #[trigger] scores@[j] == quiet_score_s(
                        hist@,
                        *p,
                        mid.quiets[j],
                        *slots,
                    ),
            decreases self.quiets@.len() - i,
        {
            let mv: Move = self.quiets[i];
            assert(mid.quiets[i as int] == mv);
            scores.push(hist.quiet_score(p, mv, slots));
            i = i + 1;
        }
        assert(scores@ =~= quiet_scores(hist@, *p, mid.quiets, *slots));
        let threshold: i32 = -1000 * self.depth;
        partial_sort(&mut self.quiets, &mut scores, threshold);
        proof {
            lemma_sorted_wf(
                mid.quiets,
                quiet_scores(hist@, *p, mid.quiets, *slots),
                threshold as int,
            );
        }
    }

    fn pick_killer(&self, ks: &[Option<Move>; 3]) -> (r: Option<Move>)
        ensures
            r == first_killer(self@, *ks),
    {
        let mut i: usize = 0;
        while i < 3
            invariant
                i <= 3,
                i >= 1 ==> !killer_fits(self@, ks[0]),
                i >= 2 ==> !killer_fits(self@, ks[1]),
                i >= 3 ==> !killer_fits(self@, ks[2]),
            decreases 3 - i,
        {
            let k: Option<Move> = ks[i];
            match k {
                Some(m) => {
                    if k != self.hash_move && has_move(&self.quiets, m) {
                        return k;
                    }
                },
                None => {},
            }
            i = i + 1;
        }
        None
    }

    fn step(&mut self, board: &Board, hist: &Histories, slots: &Slots, ply: usize) -> (r: Step)
        requires
            old(self)@.wf(),
            board.occ_all == occ_s(board.pos.pieces),
            hist@.wf(),
            replies_ok(*slots),
            ply < hist@.killers.len(),
        ensures
            final(self)@.wf(),
            (final(self)@, r) == step_s(old(self)@, board.pos, hist@, *slots, ply as int),
            r matches Step::Give(m) ==> m.wf() || old(self)@.hash_move == Some(m),
    {
        proof {
            reveal(step_s);
        }
        let ghost o = self@;
        match self.stage {
            Stage::Hash => {
                self.stage = Stage::CapturesInit;
                match self.hash_move {
                    Some(m) => {
                        if has_move(&self.captures, m) || has_move(&self.quiets, m) {
                            return Step::Give(m);
                        }
                    },
                    None => {},
                }
                Step::Go
            },
            Stage::CapturesInit => {
                self.stage = Stage::Captures;
                self.idx = 0;
                Step::Go
            },
            Stage::Captures => {
                if self.idx < self.captures.len() {
                    let m: Move = self.captures[self.idx];
                    assert(o.captures[o.idx] == m);
                    self.idx = self.idx + 1;
                    if Some(m) == self.hash_move {
                        return Step::Go;
                    }
                    let bar: i32 = imax(-50 * (self.depth - 1), -250);
                    if see_ge(&board.pos, &m, bar) {
                        return Step::Give(m);
                    }
                    self.bad.push(m);
                    Step::Go
                } else {
                    self.stage = Stage::CapturesEnd;
                    Step::Go
                }
            },
            Stage::CapturesEnd => {
                if self.quiescence && !board.in_check() {
                    return Step::Stop;
                }
                self.stage = Stage::Killers;
                Step::Go
            },
            Stage::Killers => {
                self.stage = Stage::QuietInit;
                let ks: [Option<Move>; 3] = hist.killers(ply);
                match self.pick_killer(&ks) {
                    Some(m) => {
                        self.killer = Some(m);
                        assert(o.quiets.contains(m));
                        Step::Give(m)
                    },
                    None => Step::Go,
                }
            },
            Stage::QuietInit => {
                self.sort_quiets(&board.pos, hist, slots);
                self.stage = Stage::Quiet;
                self.idx = 0;
                Step::Go
            },
            Stage::Quiet => {
                if self.idx < self.quiets.len() {
                    let m: Move = self.quiets[self.idx];
                    assert(o.quiets[o.idx] == m);
                    self.idx = self.idx + 1;
                    if Some(m) != self.hash_move && Some(m) != self.killer {
                        return Step::Give(m);
                    }
                    Step::Go
                } else {
                    self.stage = Stage::BadCapturesInit;
                    Step::Go
                }
            },
            Stage::BadCapturesInit => {
                self.stage = Stage::BadCaptures;
                self.idx = 0;
                Step::Go
            },
            Stage::BadCaptures => {
                if self.idx < self.bad.len() {
                    let m: Move = self.bad[self.idx];
                    assert(o.bad[o.idx] == m);
                    self.idx = self.idx + 1;
                    if Some(m) != self.hash_move {
                        return Step::Give(m);
                    }
                    Step::Go
                } else {
                    self.stage = Stage::Done;
                    Step::Go
                }
            },
            Stage::Done => Step::Stop,
        }
    }

    /// The next move, if there is one left.
    pub fn next_move(
        &mut self,
        board: &Board,
        hist: &Histories,
        slots: &Slots,
        ply: usize,
    ) -> (r: Option<Move>)
        requires
            old(self)@.wf(),
            board.occ_all == occ_s(board.pos.pieces),
            hist@.wf(),
            replies_ok(*slots),
            ply < hist@.killers.len(),
        ensures
            final(self)@.wf(),
            (final(self)@, r) == next_s(old(self)@, board.pos, hist@, *slots, ply as int),
    {
        loop
            invariant
                self@.wf(),
                board.occ_all == occ_s(board.pos.pieces),
                hist@.wf(),
                replies_ok(*slots),
                ply < hist@.killers.len(),
                next_s(self@, board.pos, hist@, *slots, ply as int) == next_s(
                    old(self)@,
                    board.pos,
                    hist@,
                    *slots,
                    ply as int,
                ),
            decreases fuel(self@),
        {
            proof {
                lemma_step_uses(self@, board.pos, hist@, *slots, ply as int);
            }
            match self.step(board, hist, slots, ply) {
                Step::Give(m) => {
                    return Some(m);
                },
                Step::Stop => {
                    return None;
                },
                Step::Go => {},
            }
        }
    }
}

proof fn lemma_sorted_wf(m: Seq<Move>, s: Seq<i32>, threshold: int)
    requires
        m.len() == s.len(),
        all_wf(m),
    ensures
        all_wf(moves_sorted(m, s, threshold, s.len() as int)),
{
    let r = moves_sorted(m, s, threshold, s.len() as int);
    lemma_sorted_same(m, s, threshold, s.len() as int);
    assert forall|i: int| 0 <= i < r.len() implies (#[trigger] r[i]).wf() by {
        assert(r.contains(r[i]));
        vstd::seq_lib::to_multiset_contains(r, r[i]);
        vstd::seq_lib::to_multiset_contains(m, r[i]);
        assert(m.contains(r[i]));
    }
}

// ---------------------------------------------------------------------------
// Every move once
// ---------------------------------------------------------------------------
/// The move stands at or behind `at`.
pub open spec fn in_tail(s: Seq<Move>, at: int, m: Move) -> bool {
    exists|i: int| at <= i < s.len() && #[trigger] s[i] == m
}

/// The move has still to be handed out.
pub open spec fn awaits(o: OrderView, m: Move) -> bool {
    match o.stage {
        Stage::Hash => o.captures.contains(m) || o.quiets.contains(m),
        Stage::CapturesInit => (o.captures.contains(m) || o.quiets.contains(m)) && Some(m)
            != o.hash_move,
        Stage::Captures => (in_tail(o.captures, o.idx, m) || o.bad.contains(m) || o.quiets.contains(
            m,
        )) && Some(m) != o.hash_move,
        Stage::CapturesEnd | Stage::Killers => (o.bad.contains(m) || o.quiets.contains(m)) && Some(
            m,
        ) != o.hash_move,
        Stage::QuietInit => (o.bad.contains(m) || o.quiets.contains(m)) && Some(m) != o.hash_move
            && Some(m) != o.killer,
        Stage::Quiet => (in_tail(o.quiets, o.idx, m) || o.bad.contains(m)) && Some(m)
            != o.hash_move && Some(m) != o.killer,
        Stage::BadCapturesInit => o.bad.contains(m) && Some(m) != o.hash_move,
        Stage::BadCaptures => in_tail(o.bad, o.idx, m) && Some(m) != o.hash_move,
        Stage::Done => false,
    }
}

/// The lists are what loading and handing out leave behind.
pub open spec fn sound(o: OrderView) -> bool {
    &&& o.idx >= 0
    &&& o.captures.no_duplicates()
    &&& o.quiets.no_duplicates()
    &&& o.bad.no_duplicates()
    &&& forall|i: int| 0 <= i < o.captures.len() ==> !(#[trigger] o.captures[i]).quiet()
    &&& forall|i: int| 0 <= i < o.quiets.len() ==> (#[trigger] o.quiets[i]).quiet()
    &&& forall|i: int| 0 <= i < o.bad.len() ==> !(#[trigger] o.bad[i]).quiet()
    &&& rank(o.stage) >= 8 ==> o.bad.len() == 0
    &&& o.stage == Stage::Captures ==> forall|i: int|
        0 <= i < o.bad.len() ==> !in_tail(o.captures, o.idx, #[trigger] o.bad[i])
    &&& rank(o.stage) >= 5 ==> o.killer is None
    &&& o.killer matches Some(k) ==> k.quiet()
}

proof fn lemma_sorted_sound(m: Seq<Move>, s: Seq<i32>, threshold: int)
    requires
        m.len() == s.len(),
        m.no_duplicates(),
    ensures
        ({
            let r = moves_sorted(m, s, threshold, s.len() as int);
            &&& r.no_duplicates()
            &&& r.len() == m.len()
            &&& forall|x: Move| #[trigger] r.contains(x) <==> m.contains(x)
        }),
{
    let r = moves_sorted(m, s, threshold, s.len() as int);
    lemma_sorted_same(m, s, threshold, s.len() as int);
    lemma_sorted_len(m, s, threshold, s.len() as int);
    m.lemma_multiset_has_no_duplicates();
    r.lemma_multiset_has_no_duplicates_conv();
    assert forall|x: Move| #[trigger] r.contains(x) <==> m.contains(x) by {
        vstd::seq_lib::to_multiset_contains(r, x);
        vstd::seq_lib::to_multiset_contains(m, x);
    }
}

/// What one step does to the moves still to be handed out.
proof fn lemma_step_hands_out(
    o: OrderView,
    p: Position,
    h: HistoriesView,
    slots: Slots,
    ply: int,
)
    requires
        sound(o),
    ensures
        ({
            let (n, r) = step_s(o, p, h, slots, ply);
            &&& sound(n)
            &&& r matches Step::Give(x) ==> awaits(o, x) && forall|m: Move| #[trigger]
                awaits(n, m) <==> awaits(o, m) && m != x
            &&& r is Go ==> forall|m: Move| #[trigger] awaits(n, m) <==> awaits(o, m)
            &&& r is Stop ==> n == o && (o.stage == Stage::Done || o.quiescence && !p.in_check())
            &&& n.quiescence == o.quiescence
        }),
{
    reveal(step_s);
    let (n, r) = step_s(o, p, h, slots, ply);
    match o.stage {
        Stage::Captures => {
            lemma_tail(o.captures, o.idx);
            assert forall|m: Move| #[trigger] o.bad.push(o.captures[o.idx]).contains(m) <==> (
            o.bad.contains(m) || m == o.captures[o.idx]) by {
                lemma_push_contains(o.bad, o.captures[o.idx], m);
            }
            if o.idx < o.captures.len() {
                let x = o.captures[o.idx];
                assert(in_tail(o.captures, o.idx, x));
                if o.bad.contains(x) {
                    let j = choose|j: int| 0 <= j < o.bad.len() && o.bad[j] == x;
                    assert(!in_tail(o.captures, o.idx, o.bad[j]));
                }
                assert forall|i: int| 0 <= i < n.bad.len() implies !in_tail(
                    n.captures,
                    n.idx,
                    #[trigger] n.bad[i],
                ) by {
                    if i < o.bad.len() {
                        assert(!in_tail(o.captures, o.idx, o.bad[i]));
                    }
                }
                if r is Give {
                    assert forall|m: Move| #[trigger] awaits(n, m) <==> awaits(o, m) && m != x by {
                        if m == x {
                            assert(!x.quiet());
                        }
                    }
                }
            }
        },
        Stage::QuietInit => {
            lemma_sorted_sound(o.quiets, quiet_scores(h, p, o.quiets, slots), -1000 * o.depth);
            lemma_tail(n.quiets, 0);
            assert forall|i: int| 0 <= i < n.quiets.len() implies (#[trigger] n.quiets[i]).quiet() by {
                assert(n.quiets.contains(n.quiets[i]));
                assert(o.quiets.contains(n.quiets[i]));
            }
        },
        Stage::CapturesInit => {
            lemma_tail(o.captures, 0);
        },
        Stage::Quiet => {
            lemma_tail(o.quiets, o.idx);
            if o.idx < o.quiets.len() {
                assert(in_tail(o.quiets, o.idx, o.quiets[o.idx]));
            } else if let Some(k) = o.killer {
                assert(!o.bad.contains(k));
            }
        },
        Stage::BadCapturesInit => {
            lemma_tail(o.bad, 0);
        },
        Stage::BadCaptures => {
            lemma_tail(o.bad, o.idx);
            if o.idx < o.bad.len() {
                assert(in_tail(o.bad, o.idx, o.bad[o.idx]));
            }
        },
        _ => {},
    }
}

proof fn lemma_push_contains(s: Seq<Move>, x: Move, m: Move)
    ensures
        s.push(x).contains(m) <==> (s.contains(m) || m == x),
{
    if s.contains(m) {
        let i = choose|i: int| 0 <= i < s.len() && s[i] == m;
        assert(s.push(x)[i] == m);
    }
    if m == x {
        assert(s.push(x)[s.len() as int] == x);
    }
}

proof fn lemma_tail(s: Seq<Move>, at: int)
    requires
        0 <= at,
    ensures
        at == 0 ==> forall|m: Move| #[trigger] in_tail(s, 0, m) <==> s.contains(m),
        at >= s.len() ==> forall|m: Move| !#[trigger] in_tail(s, at, m),
        s.no_duplicates() && at < s.len() ==> forall|m: Move| #[trigger]
            in_tail(s, at + 1, m) <==> in_tail(s, at, m) && m != s[at],
{
    if at < s.len() && s.no_duplicates() {
        assert forall|m: Move| #[trigger] in_tail(s, at + 1, m) <==> in_tail(s, at, m) && m
            != s[at] by {
            if in_tail(s, at + 1, m) {
                let i = choose|i: int| at + 1 <= i < s.len() && #[trigger] s[i] == m;
                assert(s[i] == m);
            }
            if in_tail(s, at, m) && m != s[at] {
                let i = choose|i: int| at <= i < s.len() && #[trigger] s[i] == m;
                assert(s[i] == m);
            }
        }
    }
}

/// Whatever the histories say from one call to the next, a picker hands out one
/// of the moves that are waiting and leaves the others waiting; it has none left
/// to give when none is waiting, or in a quiescence search once the captures
/// that survive the exchange test are gone.
pub proof fn law_each_move_once(
    o: OrderView,
    p: Position,
    h: HistoriesView,
    slots: Slots,
    ply: int,
)
    requires
        sound(o),
    ensures
        ({
            let (n, r) = next_s(o, p, h, slots, ply);
            &&& sound(n)
            &&& n.quiescence == o.quiescence
            &&& r matches Some(x) ==> awaits(o, x) && forall|m: Move| #[trigger]
                awaits(n, m) <==> awaits(o, m) && m != x
            &&& r is None ==> (o.quiescence && !p.in_check()) || forall|m: Move| !#[trigger]
                awaits(o, m)
            &&& r is None ==> forall|m: Move| #[trigger] awaits(n, m) <==> awaits(o, m)
        }),
    decreases fuel(o),
{
    lemma_step_uses(o, p, h, slots, ply);
    lemma_step_hands_out(o, p, h, slots, ply);
    match step_s(o, p, h, slots, ply) {
        (n, Step::Go) => {
            law_each_move_once(n, p, h, slots, ply);
            let (last, r) = next_s(n, p, h, slots, ply);
            if r is None && !(o.quiescence && !p.in_check()) {
                assert forall|m: Move| !#[trigger] awaits(o, m) by {
                    assert(awaits(n, m) <==> awaits(o, m));
                }
            }
            if let Some(x) = r {
                assert(awaits(n, x) <==> awaits(o, x));
                assert forall|m: Move| #[trigger] awaits(last, m) <==> awaits(o, m) && m != x by {
                    assert(awaits(n, m) <==> awaits(o, m));
                }
            } else {
                assert forall|m: Move| #[trigger] awaits(last, m) <==> awaits(o, m) by {
                    assert(awaits(n, m) <==> awaits(o, m));
                }
            }
        },
        _ => {},
    }
}

proof fn lemma_split(moves: Seq<Move>, n: int)
    requires
        0 <= n <= moves.len(),
        moves.no_duplicates(),
    ensures
        forcing_upto(moves, n).no_duplicates(),
        calm_upto(moves, n).no_duplicates(),
        forall|i: int|
            0 <= i < forcing_upto(moves, n).len() ==> !(#[trigger] forcing_upto(
                moves,
                n,
            )[i]).quiet(),
        forall|i: int|
            0 <= i < calm_upto(moves, n).len() ==> (#[trigger] calm_upto(moves, n)[i]).quiet(),
        forall|m: Move|
            #![trigger forcing_upto(moves, n).contains(m)]
            #![trigger calm_upto(moves, n).contains(m)]
            (forcing_upto(moves, n).contains(m) || calm_upto(moves, n).contains(m))
                <==> moves.take(n).contains(m),
    decreases n,
{
    if n <= 0 {
        assert(moves.take(0) =~= Seq::<Move>::empty());
    } else {
        lemma_split(moves, n - 1);
        let x = moves[n - 1];
        assert(moves.take(n) =~= moves.take(n - 1).push(x));
        assert(!moves.take(n - 1).contains(x)) by {
            if moves.take(n - 1).contains(x) {
                let t = moves.take(n - 1);
                let i = choose|i: int| 0 <= i < t.len() && t[i] == x;
                assert(moves[i] == x);
            }
        }
        assert(!forcing_upto(moves, n - 1).contains(x));
        assert(!calm_upto(moves, n - 1).contains(x));
        assert forall|m: Move|
            #![trigger forcing_upto(moves, n).contains(m)]
            #![trigger calm_upto(moves, n).contains(m)]
            (forcing_upto(moves, n).contains(m) || calm_upto(moves, n).contains(m))
                <==> moves.take(n).contains(m) by {
            lemma_push_contains(moves.take(n - 1), x, m);
            lemma_push_contains(forcing_upto(moves, n - 1), x, m);
            lemma_push_contains(calm_upto(moves, n - 1), x, m);
        }
    }
}

/// A picker loaded with distinct moves has exactly those waiting.
pub proof fn law_loaded_moves_await(
    hash_move: Option<Move>,
    depth: int,
    quiescence: bool,
    p: Position,
    moves: Seq<Move>,
)
    requires
        moves.no_duplicates(),
    ensures
        ({
            let o = loaded(new_order(hash_move, depth, quiescence), p, moves);
            &&& sound(o)
            &&& forall|m: Move| #[trigger] awaits(o, m) <==> moves.contains(m)
        }),
{
    reveal(loaded);
    let e = new_order(hash_move, depth, quiescence);
    let o = loaded(e, p, moves);
    let c = e.captures + forcing_upto(moves, moves.len() as int);
    assert(c =~= forcing_upto(moves, moves.len() as int));
    assert(e.quiets + calm_upto(moves, moves.len() as int) =~= calm_upto(
        moves,
        moves.len() as int,
    ));
    lemma_split(moves, moves.len() as int);
    assert(moves.take(moves.len() as int) =~= moves);
    lemma_sorted_sound(c, capture_scores(p, c), 0);
    assert forall|i: int| 0 <= i < o.captures.len() implies !(#[trigger] o.captures[i]).quiet() by {
        assert(o.captures.contains(o.captures[i]));
        assert(c.contains(o.captures[i]));
    }
}

proof fn lemma_split_len(moves: Seq<Move>, n: int)
    requires
        0 <= n <= moves.len(),
    ensures
        forcing_upto(moves, n).len() + calm_upto(moves, n).len() == n,
    decreases n,
{
    if n > 0 {
        lemma_split_len(moves, n - 1);
    }
}

/// A loaded picker takes no more steps than this to run dry.
pub proof fn lemma_loaded_fuel(
    hash_move: Option<Move>,
    depth: int,
    quiescence: bool,
    p: Position,
    moves: Seq<Move>,
)
    ensures
        0 <= fuel(loaded(new_order(hash_move, depth, quiescence), p, moves)) <= 18 * moves.len()
            + 9,
{
    reveal(loaded);
    let e = new_order(hash_move, depth, quiescence);
    let c = e.captures + forcing_upto(moves, moves.len() as int);
    lemma_split_len(moves, moves.len() as int);
    lemma_sorted_len(c, capture_scores(p, c), 0, c.len() as int);
}

}
