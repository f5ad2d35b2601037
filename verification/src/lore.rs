//! What the search has learned about moves and positions: killers, histories
//! and corrections.
use vstd::prelude::*;
use crate::board::both_colors;
use crate::histories::saturate_add;
use crate::moves::{Move, MoveFlag};
use crate::num::{abs1, clamp3, iclamp, idiv, lemma_tdiv_bound, tdiv};
use crate::position::Position;
use crate::score::{
    hist_add, hist_bonus, hist_bonus_s, hist_next, law_history_saturates, HIST_MAX_CAPT,
    HIST_MAX_CONT, HIST_MAX_MAIN, MATE_IN_MAX,
};
use crate::types::{Color, PieceType};
use crate::zobrist::{law_subset_key_is_local, mix, mix_s, subset_key, subset_key_s};

verus! {

/// Where one correction entry saturates.
pub const CORR_MAX: i32 = 1024;

/// The most one update may move a correction entry.
pub const CORR_MAX_UPDATE: i32 = 256;

pub const CORR_DIVISOR: i32 = 2048;

/// How much each of the five readings of what kind of position this is is
/// trusted, out of the divisor.
pub open spec fn corr_weight(k: int) -> int {
    if k == 0 {
        203
    } else if k == 1 || k == 2 {
        109
    } else if k == 3 {
        121
    } else {
        72
    }
}

/// Weight per continuation slot when scoring, the reply carrying twice the
/// rest.
pub open spec fn cont_weight(k: int) -> int {
    if k == 0 { 2 } else { 1 }
}

/// Which continuation table each slot points at, if any.
pub type Slots = [Option<usize>; 3];

pub open spec fn slots_ok(slots: Slots) -> bool {
    forall|k: int| 0 <= k < 3 ==> (#[trigger] slots[k] matches Some(i) ==> i < 384)
}

/// So many numbers, none further from zero than `cap`.
pub open spec fn within(s: Seq<i32>, n: int, cap: int) -> bool {
    &&& s.len() == n
    &&& forall|i: int| 0 <= i < s.len() ==> -cap <= #[trigger] s[i] <= cap
}

/// One entry moved by a bonus.
pub open spec fn bumped(s: Seq<i32>, i: int, bonus: int, max: int) -> Seq<i32> {
    s.update(i, hist_next(s[i] as int, bonus, max) as i32)
}

pub open spec fn main_at(side: int, from: int, to: int) -> int {
    (side * 64 + from) * 64 + to
}

pub open spec fn cont_at(k: int, idx: int, pc: int, to: int) -> int {
    ((k * 384 + idx) * 6 + pc) * 64 + to
}

pub open spec fn capt_at(pc: int, to: int, victim: int) -> int {
    (pc * 64 + to) * 6 + victim
}

pub open spec fn corr_at(k: int, side: int, idx: int) -> int {
    (k * 2 + side) * 16384 + idx
}

/// The contents of the tables.
#[verifier::ext_equal]
pub struct LoreView {
    /// Three per ply.
    pub killers: Seq<Option<Move>>,
    /// By side, origin and destination.
    pub history: Seq<i32>,
    /// By reading, side and key.
    pub corr: Seq<i32>,
    /// By slot, earlier piece and destination, piece and destination.
    pub conthist: Seq<i32>,
    /// By piece, destination and captured piece.
    pub capthist: Seq<i32>,
}

impl LoreView {
    pub open spec fn wf(self) -> bool {
        &&& self.killers.len() == 384
        &&& within(self.history, 8192, HIST_MAX_MAIN as int)
        &&& within(self.corr, 163840, CORR_MAX as int)
        &&& within(self.conthist, 442368, HIST_MAX_CONT as int)
        &&& within(self.capthist, 2304, HIST_MAX_CAPT as int)
    }
}

/// Tables that have learned nothing.
pub open spec fn blank_lore() -> LoreView {
    LoreView {
        killers: Seq::new(384, |i: int| None),
        history: Seq::new(8192, |i: int| 0i32),
        corr: Seq::new(163840, |i: int| 0i32),
        conthist: Seq::new(442368, |i: int| 0i32),
        capthist: Seq::new(2304, |i: int| 0i32),
    }
}

pub struct Lore {
    pub killers: Vec<Option<Move>>,
    pub history: Vec<i32>,
    pub corr: Vec<i32>,
    pub conthist: Vec<i32>,
    pub capthist: Vec<i32>,
}

impl View for Lore {
    type V = LoreView;

    open spec fn view(&self) -> LoreView {
        LoreView {
            killers: self.killers@,
            history: self.history@,
            corr: self.corr@,
            conthist: self.conthist@,
            capthist: self.capthist@,
        }
    }
}

fn zeros(n: usize) -> (r: Vec<i32>)
    ensures
        r@ == Seq::new(n as nat, |i: int| 0i32),
{
    let v: Vec<i32> = vec![0i32; n];
    assert(v@ =~= Seq::new(n as nat, |i: int| 0i32));
    v
}

// ---------------------------------------------------------------------------
// Killers
// ---------------------------------------------------------------------------
pub open spec fn is_killer(l: LoreView, ply: int, mv: Move) -> bool {
    ||| l.killers[ply * 3] == Some(mv)
    ||| l.killers[ply * 3 + 1] == Some(mv)
    ||| l.killers[ply * 3 + 2] == Some(mv)
}

/// The move put first among the killers of its ply, the others moved down one,
/// unless it is there already.
pub open spec fn with_killer(l: LoreView, ply: int, mv: Move) -> LoreView {
    if is_killer(l, ply, mv) {
        l
    } else {
        LoreView {
            killers: l.killers.update(ply * 3 + 2, l.killers[ply * 3 + 1]).update(
                ply * 3 + 1,
                l.killers[ply * 3],
            ).update(ply * 3, Some(mv)),
            ..l
        }
    }
}

// ---------------------------------------------------------------------------
// Quiet history
// ---------------------------------------------------------------------------
/// The first `n` continuation slots moved by a bonus.
pub open spec fn cont_bumped(
    c: Seq<i32>,
    slots: Slots,
    pc: int,
    to: int,
    bonus: int,
    n: int,
) -> Seq<i32>
    decreases n,
{
    if n <= 0 {
        c
    } else {
        let d = cont_bumped(c, slots, pc, to, bonus, n - 1);
        match slots[n - 1] {
            Some(i) => bumped(d, cont_at(n - 1, i as int, pc, to), bonus, HIST_MAX_CONT as int),
            None => d,
        }
    }
}

/// One move credited, or charged, in every table that speaks of it.
#[verifier::opaque]
pub open spec fn credited(
    l: LoreView,
    p: Position,
    mv: Move,
    slots: Slots,
    bonus: int,
) -> LoreView {
    let history = bumped(
        l.history,
        main_at(p.us(), mv.from as int, mv.to as int),
        bonus,
        HIST_MAX_MAIN as int,
    );
    match p.piece_s(mv.from as int) {
        None => LoreView { history, ..l },
        Some((pt, c)) => LoreView {
            history,
            conthist: cont_bumped(l.conthist, slots, pt.index(), mv.to as int, bonus, 3),
            ..l
        },
    }
}

/// Every move of the first `n` but this one charged.
pub open spec fn charged(
    l: LoreView,
    p: Position,
    mv: Move,
    slots: Slots,
    bonus: int,
    searched: Seq<Move>,
    n: int,
) -> LoreView
    decreases n,
{
    if n <= 0 {
        l
    } else {
        let m = charged(l, p, mv, slots, bonus, searched, n - 1);
        if searched[n - 1] == mv {
            m
        } else {
            credited(m, p, searched[n - 1], slots, -bonus)
        }
    }
}

/// After a quiet move ended a node: it becomes a killer and is credited, and
/// the quiet moves tried before it are charged the same.
pub open spec fn cut_off(
    l: LoreView,
    p: Position,
    mv: Move,
    ply: int,
    depth: int,
    slots: Slots,
    searched: Seq<Move>,
) -> LoreView {
    let bonus = hist_bonus_s(depth);
    charged(
        credited(with_killer(l, ply, mv), p, mv, slots, bonus),
        p,
        mv,
        slots,
        bonus,
        searched,
        searched.len() as int,
    )
}

/// The weighted continuation readings of the first `n` slots.
pub open spec fn cont_sum(l: LoreView, slots: Slots, pc: int, to: int, n: int) -> int
    decreases n,
{
    if n <= 0 {
        0
    } else {
        cont_sum(l, slots, pc, to, n - 1) + match slots[n - 1] {
            Some(i) => cont_weight(n - 1) * l.conthist[cont_at(n - 1, i as int, pc, to)],
            None => 0,
        }
    }
}

/// What the tables think of a move: nothing of a capture or a promotion.
#[verifier::opaque]
pub open spec fn history_s(l: LoreView, p: Position, mv: Move, slots: Slots) -> int {
    if !mv.quiet() {
        0
    } else {
        l.history[main_at(p.us(), mv.from as int, mv.to as int)] + match p.piece_s(mv.from as int) {
            Some((pt, c)) => cont_sum(l, slots, pt.index(), mv.to as int, 3),
            None => 0,
        }
    }
}

// ---------------------------------------------------------------------------
// Capture history
// ---------------------------------------------------------------------------
/// Which capture entry a move belongs to: piece and victim.
pub open spec fn capture_pair(p: Position, mv: Move) -> Option<(int, int)> {
    match p.piece_s(mv.from as int) {
        None => None,
        Some((pt, c)) => if mv.flag == MoveFlag::EnPassant {
            Some((pt.index(), 0))
        } else {
            match p.piece_s(mv.to as int) {
                None => None,
                Some((v, d)) => Some((pt.index(), v.index())),
            }
        },
    }
}

/// What a capture is worth by past results, zero when the table is off.
#[verifier::opaque]
pub open spec fn capt_score_s(l: LoreView, on: bool, p: Position, mv: Move) -> int {
    match capture_pair(p, mv) {
        Some((pc, v)) if on => l.capthist[capt_at(pc, mv.to as int, v)] as int,
        _ => 0,
    }
}

/// A capture moved for or against by past results.
#[verifier::opaque]
pub open spec fn capture_credited(
    l: LoreView,
    on: bool,
    p: Position,
    mv: Move,
    bonus: int,
) -> LoreView {
    match capture_pair(p, mv) {
        Some((pc, v)) if on => LoreView {
            capthist: bumped(
                l.capthist,
                capt_at(pc, mv.to as int, v),
                bonus,
                HIST_MAX_CAPT as int,
            ),
            ..l
        },
        _ => l,
    }
}

/// Every capture of the first `n` but this move charged.
pub open spec fn captures_charged(
    l: LoreView,
    on: bool,
    p: Position,
    mv: Move,
    bonus: int,
    searched: Seq<Move>,
    n: int,
) -> LoreView
    decreases n,
{
    if n <= 0 {
        l
    } else {
        let m = captures_charged(l, on, p, mv, bonus, searched, n - 1);
        if searched[n - 1] == mv {
            m
        } else {
            capture_credited(m, on, p, searched[n - 1], -bonus)
        }
    }
}

// ---------------------------------------------------------------------------
// Correction history
// ---------------------------------------------------------------------------
pub open spec fn force_kinds() -> Seq<PieceType> {
    seq![PieceType::Knight, PieceType::Bishop, PieceType::Rook, PieceType::Queen]
}

/// The five keys: the pawns, each side's remaining force, the last move by
/// piece and destination, and the last move as a change of position key.
pub open spec fn corr_key(p: Position, last: Option<(usize, usize)>, delta: u64, k: int) -> u64 {
    if k == 0 {
        mix_s(subset_key_s(p.pieces, both_colors(), seq![PieceType::Pawn]))
    } else if k == 1 {
        mix_s(subset_key_s(p.pieces, seq![Color::White], force_kinds()))
    } else if k == 2 {
        mix_s(subset_key_s(p.pieces, seq![Color::Black], force_kinds()))
    } else if k == 3 {
        match last {
            Some((pc, to)) => mix_s(((pc as u64) << 8u64) | (to as u64) | 0x5eed_0000_0000u64),
            None => 0,
        }
    } else if delta == 0 {
        0
    } else {
        mix_s(delta)
    }
}

pub open spec fn corr_slot(p: Position, last: Option<(usize, usize)>, delta: u64, k: int) -> int {
    (corr_key(p, last, delta, k) & 16383u64) as int
}

proof fn bv_slot(x: u64)
    by (bit_vector)
    ensures
        x & 16383u64 < 16384,
{
}

/// The weighted readings of the first `n` keys.
pub open spec fn corr_sum(
    l: LoreView,
    p: Position,
    last: Option<(usize, usize)>,
    delta: u64,
    n: int,
) -> int
    decreases n,
{
    if n <= 0 {
        0
    } else {
        corr_sum(l, p, last, delta, n - 1) + l.corr[corr_at(
            n - 1,
            p.us(),
            corr_slot(p, last, delta, n - 1),
        )] * corr_weight(n - 1)
    }
}

/// The static score, adjusted by what the search has been saying about
/// positions like this one.
#[verifier::opaque]
pub open spec fn corrected_s(
    l: LoreView,
    p: Position,
    raw: int,
    last: Option<(usize, usize)>,
    delta: u64,
) -> int {
    clamp3(
        raw + tdiv(corr_sum(l, p, last, delta, 5), CORR_DIVISOR as int),
        -MATE_IN_MAX + 1,
        MATE_IN_MAX - 1,
    )
}

/// A correction entry after one update: pulled towards the bonus as any history
/// is, and never further than one update may move it.
pub open spec fn corr_next(e: int, bonus: int) -> int {
    e + clamp3(
        hist_next(e, bonus, CORR_MAX as int) - e,
        -CORR_MAX_UPDATE as int,
        CORR_MAX_UPDATE as int,
    )
}

/// What the miss asks of every entry, scaled by the depth that found it and
/// capped.
pub open spec fn corr_bonus(diff: int, depth: int) -> int {
    clamp3(tdiv(diff * depth, 8), -CORR_MAX_UPDATE as int, CORR_MAX_UPDATE as int)
}

/// The first `n` readings moved towards what the search said.
pub open spec fn corr_learned(
    c: Seq<i32>,
    p: Position,
    bonus: int,
    last: Option<(usize, usize)>,
    delta: u64,
    n: int,
) -> Seq<i32>
    decreases n,
{
    if n <= 0 {
        c
    } else {
        let d = corr_learned(c, p, bonus, last, delta, n - 1);
        let i = corr_at(n - 1, p.us(), corr_slot(p, last, delta, n - 1));
        d.update(i, corr_next(d[i] as int, bonus) as i32)
    }
}

/// Each reading moved by the miss, scaled by the depth that found it and
/// capped.
#[verifier::opaque]
pub open spec fn learned(
    l: LoreView,
    p: Position,
    diff: int,
    depth: int,
    last: Option<(usize, usize)>,
    delta: u64,
) -> LoreView {
    LoreView { corr: corr_learned(l.corr, p, corr_bonus(diff, depth), last, delta, 5), ..l }
}

/// The five indices of this position.
pub fn corr_indices(p: &Position, last: Option<(usize, usize)>, hash_delta: u64) -> (r: [usize; 5])
    ensures
        forall|k: int|
            0 <= k < 5 ==> #[trigger] r[k] == corr_slot(*p, last, hash_delta, k) && r[k] < 16384,
{
    let both: [Color; 2] = [Color::White, Color::Black];
    let white: [Color; 1] = [Color::White];
    let black: [Color; 1] = [Color::Black];
    let pawn: [PieceType; 1] = [PieceType::Pawn];
    let force: [PieceType; 4] = [
        PieceType::Knight,
        PieceType::Bishop,
        PieceType::Rook,
        PieceType::Queen,
    ];
    assert(both@ =~= both_colors());
    assert(white@ =~= seq![Color::White]);
    assert(black@ =~= seq![Color::Black]);
    assert(pawn@ =~= seq![PieceType::Pawn]);
    assert(force@ =~= force_kinds());
    let pawns: u64 = mix(subset_key(&p.pieces, &both, &pawn));
    let np_white: u64 = mix(subset_key(&p.pieces, &white, &force));
    let np_black: u64 = mix(subset_key(&p.pieces, &black, &force));
    let cont: u64 = match last {
        Some((pc, to)) => mix(((pc as u64) << 8u64) | (to as u64) | 0x5eed_0000_0000u64),
        None => 0,
    };
    let trans: u64 = if hash_delta == 0 {
        0
    } else {
        mix(hash_delta)
    };
    proof {
        bv_slot(pawns);
        bv_slot(np_white);
        bv_slot(np_black);
        bv_slot(cont);
        bv_slot(trans);
    }
    [
        (pawns & 16383u64) as usize,
        (np_white & 16383u64) as usize,
        (np_black & 16383u64) as usize,
        (cont & 16383u64) as usize,
        (trans & 16383u64) as usize,
    ]
}

impl Lore {
    pub fn new() -> (r: Self)
        ensures
            r@ == blank_lore(),
            r@.wf(),
    {
        let none: Option<Move> = None;
        let killers: Vec<Option<Move>> = vec![none; 384];
        let r = Lore {
            killers,
            history: zeros(8192),
            corr: zeros(163840),
            conthist: zeros(442368),
            capthist: zeros(2304),
        };
        assert(r@ =~= blank_lore());
        r
    }

    /// Put a move first among the killers of its ply.
    pub fn add_killer(&mut self, ply: usize, mv: Move)
        requires
            old(self)@.wf(),
            ply < 128,
        ensures
            final(self)@.wf(),
            final(self)@ == with_killer(old(self)@, ply as int, mv),
    {
        let at: usize = ply * 3;
        let a: Option<Move> = self.killers[at];
        let b: Option<Move> = self.killers[at + 1];
        let c: Option<Move> = self.killers[at + 2];
        if a == Some(mv) || b == Some(mv) || c == Some(mv) {
            return;
        }
        self.killers.set(at + 2, b);
        self.killers.set(at + 1, a);
        self.killers.set(at, Some(mv));
        assert(self@ =~= with_killer(old(self)@, ply as int, mv));
    }

    /// Move one move for or against, in every table that speaks of it.
    pub fn credit(&mut self, p: &Position, mv: Move, slots: &Slots, bonus: i32)
        requires
            old(self)@.wf(),
            mv.wf(),
            slots_ok(*slots),
            -HIST_MAX_MAIN <= bonus <= HIST_MAX_MAIN,
        ensures
            final(self)@.wf(),
            final(self)@ == credited(old(self)@, *p, mv, *slots, bonus as int),
    {
        proof {
            reveal(credited);
        }
        let side: usize = p.side.idx();
        let from: usize = mv.from as usize;
        let to: usize = mv.to as usize;
        saturate_add(&mut self.history, (side * 64 + from) * 64 + to, bonus, HIST_MAX_MAIN);
        match p.piece_at(mv.from) {
            Some((pt, _)) => {
                let pc: usize = pt.idx();
                let mut k: usize = 0;
                let ghost mid = self@;
                while k < 3
                    invariant
                        k <= 3,
                        pc < 6,
                        to < 64,
                        slots_ok(*slots),
                        -HIST_MAX_MAIN <= bonus <= HIST_MAX_MAIN,
                        self@.wf(),
                        self@ == (LoreView {
                            conthist: cont_bumped(
                                mid.conthist,
                                *slots,
                                pc as int,
                                to as int,
                                bonus as int,
                                k as int,
                            ),
                            ..mid
                        }),
                    decreases 3 - k,
                {
                    match slots[k] {
                        Some(i) => {
                            assert(slots@[k as int] == Some(i));
                            saturate_add(
                                &mut self.conthist,
                                ((k * 384 + i) * 6 + pc) * 64 + to,
                                bonus,
                                HIST_MAX_CONT,
                            );
                        },
                        None => {},
                    }
                    k = k + 1;
                }
            },
            None => {},
        }
        assert(self@ =~= credited(old(self)@, *p, mv, *slots, bonus as int));
    }

    /// A quiet move ended the node: remember it, credit it, and charge the
    /// quiet moves tried before it. More than seventy-five plies below nothing the
    /// charge would pass the ceiling of the main table.
    pub fn on_beta_cutoff(
        &mut self,
        p: &Position,
        mv: Move,
        ply: usize,
        depth: i32,
        slots: &Slots,
        searched: &Vec<Move>,
    )
        requires
            old(self)@.wf(),
            mv.wf(),
            ply < 128,
            -75 <= depth <= 10_737_418,
            slots_ok(*slots),
            forall|i: int| 0 <= i < searched@.len() ==> (#[trigger] searched@[i]).wf(),
        ensures
            final(self)@.wf(),
            final(self)@ == cut_off(
                old(self)@,
                *p,
                mv,
                ply as int,
                depth as int,
                *slots,
                searched@,
            ),
    {
        let bonus: i32 = hist_bonus(depth);
        self.add_killer(ply, mv);
        self.credit(p, mv, slots, bonus);
        let ghost mid = self@;
        let mut n: usize = 0;
        while n < searched.len()
            invariant
                n <= searched@.len(),
                -HIST_MAX_MAIN <= bonus <= HIST_MAX_MAIN,
                slots_ok(*slots),
                forall|i: int| 0 <= i < searched@.len() ==> (#[trigger] searched@[i]).wf(),
                self@.wf(),
                self@ == charged(mid, *p, mv, *slots, bonus as int, searched@, n as int),
            decreases searched@.len() - n,
        {
            let q: Move = searched[n];
            if q != mv {
                self.credit(p, q, slots, -bonus);
            }
            n = n + 1;
        }
    }

    /// What the tables think of a move.
    pub fn history_of(&self, p: &Position, mv: Move, slots: &Slots) -> (r: i32)
        requires
            self@.wf(),
            mv.wf(),
            slots_ok(*slots),
        ensures
            r == history_s(self@, *p, mv, *slots),
            -135_000 <= r <= 135_000,
    {
        proof {
            reveal(history_s);
        }
        if !mv.is_quiet() {
            return 0;
        }
        let side: usize = p.side.idx();
        let from: usize = mv.from as usize;
        let to: usize = mv.to as usize;
        let h: i32 = self.history[(side * 64 + from) * 64 + to];
        match p.piece_at(mv.from) {
            None => h,
            Some((pt, _)) => {
                let pc: usize = pt.idx();
                let mut s: i32 = 0;
                let mut k: usize = 0;
                while k < 3
                    invariant
                        k <= 3,
                        pc < 6,
                        to < 64,
                        slots_ok(*slots),
                        self@.wf(),
                        s == cont_sum(self@, *slots, pc as int, to as int, k as int),
                        -30_000 * (k + 1) <= s <= 30_000 * (k + 1),
                        k == 0 ==> s == 0,
                    decreases 3 - k,
                {
                    match slots[k] {
                        Some(i) => {
                            assert(slots@[k as int] == Some(i));
                            let v: i32 = self.conthist[((k * 384 + i) * 6 + pc) * 64 + to];
                            let w: i32 = if k == 0 {
                                2
                            } else {
                                1
                            };
                            assert(w * v == cont_weight(k as int) * v);
                            assert(w * v == if k == 0 { 2 * v } else { v as int });
                            s = s + w * v;
                        },
                        None => {},
                    }
                    k = k + 1;
                }
                h + s
            },
        }
    }

    fn pair(p: &Position, mv: &Move) -> (r: Option<(usize, usize)>)
        requires
            mv.wf(),
        ensures
            r is Some == capture_pair(*p, *mv) is Some,
            r matches Some((pc, v)) ==> capture_pair(*p, *mv) == Some((pc as int, v as int)) && pc
                < 6 && v < 6,
    {
        match p.piece_at(mv.from) {
            None => None,
            Some((pt, _)) => if mv.flag == MoveFlag::EnPassant {
                Some((pt.idx(), 0))
            } else {
                match p.piece_at(mv.to) {
                    None => None,
                    Some((v, _)) => Some((pt.idx(), v.idx())),
                }
            },
        }
    }

    /// What a capture is worth by past results, zero when the table is off.
    pub fn capt_score(&self, on: bool, p: &Position, mv: &Move) -> (r: i32)
        requires
            self@.wf(),
            mv.wf(),
        ensures
            r == capt_score_s(self@, on, *p, *mv),
            -HIST_MAX_CAPT <= r <= HIST_MAX_CAPT,
    {
        proof {
            reveal(capt_score_s);
        }
        if !on {
            return 0;
        }
        match Self::pair(p, mv) {
            Some((pc, v)) => self.capthist[(pc * 64 + mv.to as usize) * 6 + v],
            None => 0,
        }
    }

    /// Move a capture for or against by past results.
    pub fn credit_capture(&mut self, on: bool, p: &Position, mv: &Move, bonus: i32)
        requires
            old(self)@.wf(),
            mv.wf(),
            -HIST_MAX_CAPT <= bonus <= HIST_MAX_CAPT,
        ensures
            final(self)@.wf(),
            final(self)@ == capture_credited(old(self)@, on, *p, *mv, bonus as int),
    {
        proof {
            reveal(capture_credited);
        }
        if !on {
            return;
        }
        match Self::pair(p, mv) {
            Some((pc, v)) => {
                saturate_add(
                    &mut self.capthist,
                    (pc * 64 + mv.to as usize) * 6 + v,
                    bonus,
                    HIST_MAX_CAPT,
                );
            },
            None => {},
        }
        assert(self@ =~= capture_credited(old(self)@, on, *p, *mv, bonus as int));
    }

    /// Charge every capture tried but this move.
    pub fn charge_captures(
        &mut self,
        on: bool,
        p: &Position,
        mv: Move,
        bonus: i32,
        searched: &Vec<Move>,
    )
        requires
            old(self)@.wf(),
            -HIST_MAX_CAPT <= bonus <= HIST_MAX_CAPT,
            forall|i: int| 0 <= i < searched@.len() ==> (#[trigger] searched@[i]).wf(),
        ensures
            final(self)@.wf(),
            final(self)@ == captures_charged(
                old(self)@,
                on,
                *p,
                mv,
                bonus as int,
                searched@,
                searched@.len() as int,
            ),
    {
        let mut n: usize = 0;
        while n < searched.len()
            invariant
                n <= searched@.len(),
                -HIST_MAX_CAPT <= bonus <= HIST_MAX_CAPT,
                forall|i: int| 0 <= i < searched@.len() ==> (#[trigger] searched@[i]).wf(),
                self@.wf(),
                self@ == captures_charged(
                    old(self)@,
                    on,
                    *p,
                    mv,
                    bonus as int,
                    searched@,
                    n as int,
                ),
            decreases searched@.len() - n,
        {
            let c: Move = searched[n];
            if c != mv {
                self.credit_capture(on, p, &c, -bonus);
            }
            n = n + 1;
        }
    }

    /// The static score, adjusted.
    pub fn corrected(
        &self,
        p: &Position,
        raw: i32,
        last: Option<(usize, usize)>,
        hash_delta: u64,
    ) -> (r: i32)
        requires
            self@.wf(),
            -2_147_483_000 <= raw <= 2_147_483_000,
        ensures
            r == corrected_s(self@, *p, raw as int, last, hash_delta),
            -MATE_IN_MAX < r < MATE_IN_MAX,
    {
        proof {
            reveal(corrected_s);
        }
        let idx: [usize; 5] = corr_indices(p, last, hash_delta);
        let side: usize = p.side.idx();
        let weights: [i32; 5] = [203, 109, 109, 121, 72];
        let mut total: i32 = 0;
        let mut k: usize = 0;
        while k < 5
            invariant
                k <= 5,
                side == p.us(),
                side < 2,
                self@.wf(),
                weights@ == seq![203i32, 109, 109, 121, 72],
                forall|j: int|
                    0 <= j < 5 ==> #[trigger] idx[j] == corr_slot(*p, last, hash_delta, j) && idx[j]
                        < 16384,
                total == corr_sum(self@, *p, last, hash_delta, k as int),
                -210_000 * k <= total <= 210_000 * k,
            decreases 5 - k,
        {
            let at: usize = idx[k];
            let e: i32 = self.corr[(k * 2 + side) * 16384 + at];
            let w: i32 = weights[k];
            assert(w == corr_weight(k as int));
            assert(-209_000 <= e * w <= 209_000) by (nonlinear_arith)
                requires
                    -1024 <= e <= 1024,
                    0 <= w <= 203,
            ;
            assert(e * corr_weight(k as int) == e * w);
            total = total + e * w;
            k = k + 1;
        }
        let c: i32 = idiv(total, CORR_DIVISOR);
        proof {
            lemma_tdiv_bound(total as int, CORR_DIVISOR as int);
        }
        iclamp(raw + c, -MATE_IN_MAX + 1, MATE_IN_MAX - 1)
    }

    /// Move each reading towards what the search actually said.
    ///
    /// The miss times the depth has to fit, and nothing else is asked of either.
    pub fn learn_correction(
        &mut self,
        p: &Position,
        diff: i32,
        depth: i32,
        last: Option<(usize, usize)>,
        hash_delta: u64,
    )
        requires
            old(self)@.wf(),
            i32::MIN <= diff * depth <= i32::MAX,
        ensures
            final(self)@.wf(),
            final(self)@ == learned(
                old(self)@,
                *p,
                diff as int,
                depth as int,
                last,
                hash_delta,
            ),
    {
        proof {
            reveal(learned);
        }
        let idx: [usize; 5] = corr_indices(p, last, hash_delta);
        let side: usize = p.side.idx();
        let bonus: i32 = iclamp(idiv(diff * depth, 8), -CORR_MAX_UPDATE, CORR_MAX_UPDATE);
        let mut k: usize = 0;
        while k < 5
            invariant
                k <= 5,
                side == p.us(),
                side < 2,
                -CORR_MAX_UPDATE <= bonus <= CORR_MAX_UPDATE,
                self@.wf(),
                forall|j: int|
                    0 <= j < 5 ==> #[trigger] idx[j] == corr_slot(*p, last, hash_delta, j) && idx[j]
                        < 16384,
                self@ == (LoreView {
                    corr: corr_learned(
                        old(self)@.corr,
                        *p,
                        bonus as int,
                        last,
                        hash_delta,
                        k as int,
                    ),
                    ..old(self)@
                }),
            decreases 5 - k,
        {
            let at: usize = idx[k];
            let i: usize = (k * 2 + side) * 16384 + at;
            let e: i32 = self.corr[i];
            proof {
                law_correction_step(e as int, bonus as int);
            }
            let mut pulled: i32 = e;
            hist_add(&mut pulled, bonus, CORR_MAX);
            self.corr.set(i, e + iclamp(pulled - e, -CORR_MAX_UPDATE, CORR_MAX_UPDATE));
            k = k + 1;
        }
        assert(self@ =~= learned(old(self)@, *p, diff as int, depth as int, last, hash_delta));
    }
}

proof fn lemma_cont_sum(l: LoreView, slots: Slots, pc: int, to: int, n: int)
    requires
        l.wf(),
        slots_ok(slots),
        0 <= pc < 6,
        0 <= to < 64,
        0 <= n <= 3,
    ensures
        n == 0 ==> cont_sum(l, slots, pc, to, n) == 0,
        n > 0 ==> -30_000 * (n + 1) <= cont_sum(l, slots, pc, to, n) <= 30_000 * (n + 1),
    decreases n,
{
    if n > 0 {
        lemma_cont_sum(l, slots, pc, to, n - 1);
        if let Some(i) = slots[n - 1] {
            let v = l.conthist[cont_at(n - 1, i as int, pc, to)];
            assert(-30_000 <= v <= 30_000);
            assert(cont_weight(n - 1) * v == if n == 1 { 2 * v } else { v as int });
        }
    }
}

/// No table says more of a move than the ceilings of its entries allow.
pub proof fn lemma_scores_bounded(
    l: LoreView,
    on: bool,
    p: Position,
    mv: Move,
    slots: Slots,
)
    requires
        l.wf(),
        slots_ok(slots),
        mv.wf(),
    ensures
        -135_000 <= history_s(l, p, mv, slots) <= 135_000,
        -HIST_MAX_CAPT <= capt_score_s(l, on, p, mv) <= HIST_MAX_CAPT,
{
    reveal(history_s);
    reveal(capt_score_s);
    if let Some((pt, c)) = p.piece_s(mv.from as int) {
        lemma_cont_sum(l, slots, pt.index(), mv.to as int, 3);
    }
}

/// No move is among the killers of a ply twice.
pub open spec fn killers_apart(l: LoreView, ply: int) -> bool {
    let k = l.killers;
    &&& k[ply * 3] is Some ==> k[ply * 3] != k[ply * 3 + 1] && k[ply * 3] != k[ply * 3 + 2]
    &&& k[ply * 3 + 1] is Some ==> k[ply * 3 + 1] != k[ply * 3 + 2]
}

/// The killers of every ply stay apart, the newest one stands first, and the
/// other plies are left alone.
pub proof fn law_killers_stay_apart(l: LoreView, ply: int, other: int, mv: Move)
    requires
        l.wf(),
        0 <= ply < 128,
        0 <= other < 128,
        killers_apart(l, other),
    ensures
        killers_apart(with_killer(l, ply, mv), other),
        is_killer(with_killer(l, ply, mv), ply, mv),
        !is_killer(l, ply, mv) ==> with_killer(l, ply, mv).killers[ply * 3] == Some(mv),
        other != ply ==> forall|m: Move|
            is_killer(with_killer(l, ply, mv), other, m) == is_killer(l, other, m),
{
}

/// One update never moves a reading against what the search said, never further
/// than the cap, and never out of its range.
pub proof fn law_correction_step(e: int, bonus: int)
    requires
        -CORR_MAX <= e <= CORR_MAX,
        -CORR_MAX_UPDATE <= bonus <= CORR_MAX_UPDATE,
    ensures
        ({
            let next = corr_next(e, bonus);
            &&& -CORR_MAX <= next <= CORR_MAX
            &&& bonus >= 0 ==> e <= next
            &&& bonus <= 0 ==> next <= e
            &&& -CORR_MAX_UPDATE <= next - e <= CORR_MAX_UPDATE
        }),
{
    let b = abs1(bonus);
    assert(e >= 0 ==> 0 <= e * b <= 1024 * b) by (nonlinear_arith)
        requires
            -1024 <= e <= 1024,
            0 <= b,
    ;
    assert(e <= 0 ==> -1024 * b <= e * b <= 0) by (nonlinear_arith)
        requires
            -1024 <= e <= 1024,
            0 <= b,
    ;
    law_history_saturates(e, bonus, CORR_MAX as int);
}

/// Where each reading of a position is filed: in range, by the pawns alone, by
/// each side's force alone, by the last move alone and by the change of the
/// position key alone; with no last move, or no change, in the first slot.
pub proof fn law_correction_slots(
    p: Position,
    q: Position,
    last_p: Option<(usize, usize)>,
    last_q: Option<(usize, usize)>,
    delta_p: u64,
    delta_q: u64,
)
    ensures
        forall|k: int| 0 <= k < 5 ==> 0 <= #[trigger] corr_slot(p, last_p, delta_p, k) < 16384,
        p.pieces[0][0] == q.pieces[0][0] && p.pieces[1][0] == q.pieces[1][0] ==> corr_slot(
            p,
            last_p,
            delta_p,
            0,
        ) == corr_slot(q, last_q, delta_q, 0),
        same_force(p, q, 0) ==> corr_slot(p, last_p, delta_p, 1) == corr_slot(
            q,
            last_q,
            delta_q,
            1,
        ),
        same_force(p, q, 1) ==> corr_slot(p, last_p, delta_p, 2) == corr_slot(
            q,
            last_q,
            delta_q,
            2,
        ),
        last_p == last_q ==> corr_slot(p, last_p, delta_p, 3) == corr_slot(q, last_q, delta_q, 3),
        last_p is None ==> corr_slot(p, last_p, delta_p, 3) == 0,
        delta_p == delta_q ==> corr_slot(p, last_p, delta_p, 4) == corr_slot(
            q,
            last_q,
            delta_q,
            4,
        ),
        delta_p == 0 ==> corr_slot(p, last_p, delta_p, 4) == 0,
{
    assert forall|k: int| 0 <= k < 5 implies 0 <= #[trigger] corr_slot(p, last_p, delta_p, k)
        < 16384 by {
        bv_slot(corr_key(p, last_p, delta_p, k));
    }
    bv_slot_zero();
    if p.pieces[0][0] == q.pieces[0][0] && p.pieces[1][0] == q.pieces[1][0] {
        law_subset_key_is_local(p.pieces, q.pieces, both_colors(), seq![PieceType::Pawn]);
    }
    if same_force(p, q, 0) {
        law_subset_key_is_local(p.pieces, q.pieces, seq![Color::White], force_kinds());
    }
    if same_force(p, q, 1) {
        law_subset_key_is_local(p.pieces, q.pieces, seq![Color::Black], force_kinds());
    }
}

/// One side's knights, bishops, rooks and queens stand on the same squares.
pub open spec fn same_force(p: Position, q: Position, c: int) -> bool {
    &&& p.pieces[c][1] == q.pieces[c][1]
    &&& p.pieces[c][2] == q.pieces[c][2]
    &&& p.pieces[c][3] == q.pieces[c][3]
    &&& p.pieces[c][4] == q.pieces[c][4]
}

proof fn bv_slot_zero()
    by (bit_vector)
    ensures
        0u64 & 16383u64 == 0,
{
}

proof fn lemma_corr_learned(
    c: Seq<i32>,
    p: Position,
    bonus: int,
    last: Option<(usize, usize)>,
    delta: u64,
    n: int,
)
    requires
        within(c, 163_840, CORR_MAX as int),
        -CORR_MAX_UPDATE <= bonus <= CORR_MAX_UPDATE,
        0 <= n <= 5,
    ensures
        within(corr_learned(c, p, bonus, last, delta, n), 163_840, CORR_MAX as int),
        forall|k: int, s: int, at: int|
            0 <= k < 5 && 0 <= s < 2 && 0 <= at < 16384 ==> #[trigger] corr_learned(
                c,
                p,
                bonus,
                last,
                delta,
                n,
            )[corr_at(k, s, at)] == (if k < n && s == p.us() && at == corr_slot(
                p,
                last,
                delta,
                k,
            ) {
                corr_next(c[corr_at(k, s, at)] as int, bonus)
            } else {
                c[corr_at(k, s, at)] as int
            }),
    decreases n,
{
    if n > 0 {
        lemma_corr_learned(c, p, bonus, last, delta, n - 1);
        let slot = corr_slot(p, last, delta, n - 1);
        bv_slot(corr_key(p, last, delta, n - 1));
        let d = corr_learned(c, p, bonus, last, delta, n - 1);
        let i = corr_at(n - 1, p.us(), slot);
        assert(d[corr_at(n - 1, p.us(), slot)] == c[corr_at(n - 1, p.us(), slot)]);
        law_correction_step(d[i] as int, bonus);
    }
}

/// The entry of this position in each reading takes one step.
pub proof fn lemma_reading_learned(
    l: LoreView,
    p: Position,
    diff: int,
    depth: int,
    last: Option<(usize, usize)>,
    delta: u64,
    k: int,
)
    requires
        l.wf(),
        0 <= k < 5,
    ensures
        ({
            let i = corr_at(k, p.us(), corr_slot(p, last, delta, k));
            learned(l, p, diff, depth, last, delta).corr[i] == corr_next(
                l.corr[i] as int,
                corr_bonus(diff, depth),
            )
        }),
{
    reveal(learned);
    bv_slot(corr_key(p, last, delta, k));
    lemma_corr_learned(l.corr, p, corr_bonus(diff, depth), last, delta, 5);
}

/// What a miss teaches: of each reading at most one entry changes, and that one
/// belongs to the side to move and to this position. It moves with the miss and
/// never against it, by no more than the cap, and stays in its range. Nothing
/// else is touched.
pub proof fn law_correction_learns(
    l: LoreView,
    p: Position,
    diff: int,
    depth: int,
    last: Option<(usize, usize)>,
    delta: u64,
    k: int,
    side: int,
    at: int,
)
    requires
        l.wf(),
        0 <= depth,
        0 <= k < 5,
        0 <= side < 2,
        0 <= at < 16384,
    ensures
        ({
            let next = learned(l, p, diff, depth, last, delta);
            let before = l.corr[corr_at(k, side, at)];
            let after = next.corr[corr_at(k, side, at)];
            &&& next == (LoreView { corr: next.corr, ..l })
            &&& next.wf()
            &&& -CORR_MAX <= after <= CORR_MAX
            &&& -CORR_MAX_UPDATE <= after - before <= CORR_MAX_UPDATE
            &&& after != before ==> side == p.us() && at == corr_slot(p, last, delta, k)
            &&& diff >= 0 ==> before <= after
            &&& diff <= 0 ==> after <= before
        }),
{
    reveal(learned);
    let bonus = corr_bonus(diff, depth);
    assert(diff >= 0 ==> diff * depth >= 0) by (nonlinear_arith)
        requires
            depth >= 0,
    ;
    assert(diff <= 0 ==> diff * depth <= 0) by (nonlinear_arith)
        requires
            depth >= 0,
    ;
    lemma_corr_learned(l.corr, p, bonus, last, delta, 5);
    law_correction_step(l.corr[corr_at(k, side, at)] as int, bonus);
}

}
