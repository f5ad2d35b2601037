//! The network: reading it, keeping it up to date, and asking it for a score.
//!
//! Shape: (768 x 32 -> 512) x 2 -> 1, plus a piece-square term that skips the
//! hidden layer, both read through four output buckets chosen by piece count.
//! One hidden layer, clipped ReLU, everything in `i16`.
//!
//! The hidden layer is arithmetic modulo 2^16, so an accumulator is the wrapped
//! sum of the columns of the pieces on the board whatever order they were added
//! and removed in. Everything below is stated against that sum.
use vstd::prelude::*;
use crate::bitboard::{bit, holds, lemma_bit_update, with_bit, without_bit};
use crate::num::{clamp3, tdiv};
use crate::position::{lemma_with_set, on, placed, removed, Placement};
use crate::types::{file_of, rank_of, Color, PieceType, Square};

verus! {

/// King buckets. The bucket is the king's own square after folding, not a
/// coarse region, so every king move changes it.
pub const INPUT_BUCKETS: usize = 32;

pub const HIDDEN: usize = 512;

pub const OUT_BUCKETS: usize = 4;

pub const NUM_FEATURES: usize = 24576;

/// Weights are stored multiplied by this, and the hidden layer is clipped to
/// it.
pub const SCALE: i32 = 1024;

/// The size of a network file.
pub const NET_BYTES: usize = 25370632;

/// The weights.
#[verifier::ext_equal]
pub struct Weights {
    pub l0w: Seq<[i16; 512]>,
    pub psqt: Seq<[i16; 4]>,
    pub l1w: Seq<[i16; 1024]>,
    pub l1b: [i16; 4],
}

impl Weights {
    pub open spec fn wf(self) -> bool {
        &&& self.l0w.len() == NUM_FEATURES
        &&& self.psqt.len() == NUM_FEATURES
        &&& self.l1w.len() == OUT_BUCKETS
    }
}

pub struct Network {
    pub l0w: Vec<[i16; 512]>,
    pub psqt: Vec<[i16; 4]>,
    pub l1w: Vec<[i16; 1024]>,
    pub l1b: [i16; 4],
}

impl View for Network {
    type V = Weights;

    open spec fn view(&self) -> Weights {
        Weights { l0w: self.l0w@, psqt: self.psqt@, l1w: self.l1w@, l1b: self.l1b }
    }
}

// ---------------------------------------------------------------------------
// Wrapping
// ---------------------------------------------------------------------------
/// The value of `x` in sixteen bits of two's complement.
pub open spec fn wrap16(x: int) -> int {
    (x + 32768) % 65536 - 32768
}

/// The value of `x` in thirty-two bits of two's complement.
pub open spec fn wrap32(x: int) -> int {
    (x + 0x8000_0000) % 0x1_0000_0000 - 0x8000_0000
}

pub proof fn lemma_wrap16(a: int, b: int)
    ensures
        wrap16(wrap16(a) + b) == wrap16(a + b),
        wrap16(wrap16(a) - b) == wrap16(a - b),
        -32768 <= wrap16(a) < 32768,
        -32768 <= a < 32768 ==> wrap16(a) == a,
{
}

pub proof fn lemma_wrap32(a: int, b: int)
    ensures
        wrap32(wrap32(a) + b) == wrap32(a + b),
        -0x8000_0000 <= wrap32(a) < 0x8000_0000,
        -0x8000_0000 <= a < 0x8000_0000 ==> wrap32(a) == a,
{
}

// ---------------------------------------------------------------------------
// Features
// ---------------------------------------------------------------------------
pub open spec fn flip_rank_s(s: int) -> int {
    (7 - s / 8) * 8 + s % 8
}

pub open spec fn flip_file_s(s: int) -> int {
    (s / 8) * 8 + (7 - s % 8)
}

fn flip_rank(s: Square) -> (r: Square)
    requires
        s < 64,
    ensures
        r == flip_rank_s(s as int),
        r < 64,
{
    (7 - s / 8) * 8 + s % 8
}

fn flip_file(s: Square) -> (r: Square)
    requires
        s < 64,
    ensures
        r == flip_file_s(s as int),
        r < 64,
{
    (s / 8) * 8 + (7 - s % 8)
}

/// The king square as its own side sees it.
pub open spec fn own_view(perspective: Color, s: int) -> int {
    if perspective == Color::Black { flip_rank_s(s) } else { s }
}

/// This perspective reads the board mirrored: its king is on the king side.
pub open spec fn mirror_s(perspective: Color, king: int) -> bool {
    own_view(perspective, king) % 8 >= 4
}

pub open spec fn bucket_s(perspective: Color, king: int) -> int {
    let k = own_view(perspective, king);
    let f = if k % 8 >= 4 { flip_file_s(k) } else { k };
    4 * (f / 8) + f % 8
}

/// Which king bucket, and whether this perspective reads the board mirrored.
///
/// Both are functions of the king square and both have to travel together: a
/// king on d1 and a king on e1 fold to the same bucket while needing opposite
/// mirrors.
pub fn bucket_and_mirror(perspective: Color, king_sq: Square) -> (r: (usize, bool))
    requires
        king_sq < 64,
    ensures
        r.0 == bucket_s(perspective, king_sq as int),
        r.1 == mirror_s(perspective, king_sq as int),
        r.0 < INPUT_BUCKETS,
{
    let ks: u8 = if perspective == Color::Black { flip_rank(king_sq) } else { king_sq };
    let mirror: bool = file_of(ks) >= 4;
    let ks: u8 = if mirror { flip_file(ks) } else { ks };
    (4 * rank_of(ks) as usize + file_of(ks) as usize, mirror)
}

pub open spec fn feature_s(
    perspective: Color,
    bucket: int,
    mirror: bool,
    piece_color: Color,
    pt: PieceType,
    s: int,
) -> int {
    let pc = if perspective == Color::Black { piece_color.other() } else { piece_color };
    let a = own_view(perspective, s);
    let b = if mirror { flip_file_s(a) } else { a };
    b + pt.index() * 64 + pc.index() * 384 + bucket * 768
}

/// The input number for one piece, seen from one perspective.
///
/// Black's perspective sees the board upside down and with the colours
/// exchanged, so that both sides present the network with the same problem.
pub fn feature(
    perspective: Color,
    bucket: usize,
    mirror: bool,
    piece_color: Color,
    pt: PieceType,
    s: Square,
) -> (r: usize)
    requires
        bucket < INPUT_BUCKETS,
        s < 64,
    ensures
        r == feature_s(perspective, bucket as int, mirror, piece_color, pt, s as int),
        r < NUM_FEATURES,
{
    let black: bool = perspective == Color::Black;
    let pc: Color = if black { piece_color.opp() } else { piece_color };
    let a: u8 = if black { flip_rank(s) } else { s };
    let b: u8 = if mirror { flip_file(a) } else { a };
    b as usize + pt.idx() * 64 + pc.idx() * 384 + bucket * 768
}

// ---------------------------------------------------------------------------
// Sums over a placement
// ---------------------------------------------------------------------------
/// The input number of the `k`th pair of piece and square: colour times 384
/// plus kind times 64 plus square.
pub open spec fn input_s(perspective: Color, bucket: int, mirror: bool, k: int) -> int {
    feature_s(
        perspective,
        bucket,
        mirror,
        Color::at(k / 384),
        PieceType::at((k / 64) % 6),
        k % 64,
    )
}

/// What each of the 768 pairs adds to hidden unit `i`.
pub open spec fn hidden_weights(
    net: Weights,
    perspective: Color,
    bucket: int,
    mirror: bool,
    i: int,
) -> Seq<int> {
    Seq::new(768, |k: int| net.l0w[input_s(perspective, bucket, mirror, k)][i] as int)
}

/// What each of the 768 pairs adds to the piece-square term of output bucket
/// `b`.
pub open spec fn psqt_weights(
    net: Weights,
    perspective: Color,
    bucket: int,
    mirror: bool,
    b: int,
) -> Seq<int> {
    Seq::new(768, |k: int| net.psqt[input_s(perspective, bucket, mirror, k)][b] as int)
}

/// The `k`th pair is on the board.
pub open spec fn stands(pl: Placement, k: int) -> bool {
    on(pl, k / 384, (k / 64) % 6, k % 64)
}

/// The weights of the first `n` pairs that are on the board, added up.
pub open spec fn sum_upto(pl: Placement, w: Seq<int>, n: int) -> int
    decreases n,
{
    if n <= 0 {
        0
    } else {
        sum_upto(pl, w, n - 1) + if stands(pl, n - 1) { w[n - 1] } else { 0 }
    }
}

pub open spec fn sum_s(pl: Placement, w: Seq<int>) -> int {
    sum_upto(pl, w, 768)
}

/// Every weight fits in sixteen bits.
pub open spec fn small(w: Seq<int>) -> bool {
    w.len() == 768 && forall|k: int| 0 <= k < 768 ==> -32768 <= #[trigger] w[k] <= 32767
}

pub proof fn lemma_sum_bound(pl: Placement, w: Seq<int>, n: int)
    requires
        small(w),
        0 <= n <= 768,
    ensures
        -32768 * n <= sum_upto(pl, w, n) <= 32767 * n,
    decreases n,
{
    if n > 0 {
        lemma_sum_bound(pl, w, n - 1);
    }
}

pub proof fn lemma_weights_small(
    net: Weights,
    perspective: Color,
    bucket: int,
    mirror: bool,
    i: int,
)
    ensures
        small(hidden_weights(net, perspective, bucket, mirror, i)),
        small(psqt_weights(net, perspective, bucket, mirror, i)),
{
}

pub open spec fn pair_of(c: int, t: int, s: int) -> int {
    c * 384 + t * 64 + s
}

proof fn lemma_pair(c: int, t: int, s: int)
    requires
        0 <= c < 2,
        0 <= t < 6,
        0 <= s < 64,
    ensures
        0 <= pair_of(c, t, s) < 768,
        pair_of(c, t, s) / 384 == c,
        (pair_of(c, t, s) / 64) % 6 == t,
        pair_of(c, t, s) % 64 == s,
{
    let k = pair_of(c, t, s);
    assert(k / 64 == c * 6 + t);
}

/// Placing or removing one piece changes the sum by that piece's weight alone.
pub proof fn lemma_sum_update(pl: Placement, w: Seq<int>, c: int, t: int, s: int, n: int)
    requires
        0 <= c < 2,
        0 <= t < 6,
        0 <= s < 64,
        0 <= n <= 768,
    ensures
        sum_upto(placed(pl, c, t, s), w, n) == sum_upto(pl, w, n) + if pair_of(c, t, s) < n && !on(
            pl,
            c,
            t,
            s,
        ) {
            w[pair_of(c, t, s)]
        } else {
            0
        },
        sum_upto(removed(pl, c, t, s), w, n) == sum_upto(pl, w, n) - if pair_of(c, t, s) < n && on(
            pl,
            c,
            t,
            s,
        ) {
            w[pair_of(c, t, s)]
        } else {
            0
        },
    decreases n,
{
    if n > 0 {
        lemma_sum_update(pl, w, c, t, s, n - 1);
        lemma_pair(c, t, s);
        let k = n - 1;
        lemma_with_set(pl, c, t, with_bit(pl[c][t], s));
        lemma_with_set(pl, c, t, without_bit(pl[c][t], s));
        lemma_bit_update(pl[c][t], s, k % 64);
        assert(k / 384 < 2 && (k / 64) % 6 < 6);
        assert(k == (k / 384) * 384 + ((k / 64) % 6) * 64 + k % 64);
    }
}

// ---------------------------------------------------------------------------
// One perspective
// ---------------------------------------------------------------------------
/// One side's half of the hidden layer, plus its piece-square running total.
#[derive(Clone, Copy)]
pub struct Half {
    pub values: [i16; 512],
    pub psqt: [i32; 4],
    pub bucket: usize,
    pub mirror: bool,
}

/// `values` and `psqt` are what this placement adds up to under this bucket and
/// mirror.
pub open spec fn adds_up(
    net: Weights,
    values: [i16; 512],
    psqt: [i32; 4],
    perspective: Color,
    bucket: int,
    mirror: bool,
    pl: Placement,
) -> bool {
    &&& forall|i: int|
        0 <= i < 512 ==> #[trigger] values[i] == wrap16(
            sum_s(pl, hidden_weights(net, perspective, bucket, mirror, i)),
        )
    &&& forall|b: int|
        0 <= b < 4 ==> #[trigger] psqt[b] == sum_s(
            pl,
            psqt_weights(net, perspective, bucket, mirror, b),
        )
}

impl Half {
    /// This half is the accumulator of a placement.
    pub open spec fn holds(self, net: Weights, perspective: Color, pl: Placement) -> bool {
        &&& self.bucket < INPUT_BUCKETS
        &&& adds_up(
            net,
            self.values,
            self.psqt,
            perspective,
            self.bucket as int,
            self.mirror,
            pl,
        )
    }

    /// The running totals are far enough from the ends of their range to take
    /// one more weight.
    pub open spec fn roomy(self) -> bool {
        forall|b: int|
            0 <= b < 4 ==> -1_000_000_000 <= #[trigger] self.psqt[b] <= 1_000_000_000
    }

    pub open spec fn zero(self) -> bool {
        &&& forall|i: int| 0 <= i < 512 ==> #[trigger] self.values[i] == 0
        &&& forall|b: int| 0 <= b < 4 ==> #[trigger] self.psqt[b] == 0
        &&& self.bucket == 0
        &&& !self.mirror
    }

    fn empty() -> (r: Self)
        ensures
            r.zero(),
    {
        Half { values: [0i16; 512], psqt: [0i32; 4], bucket: 0, mirror: false }
    }
}

pub proof fn lemma_half_roomy(h: Half, net: Weights, perspective: Color, pl: Placement)
    requires
        h.holds(net, perspective, pl),
    ensures
        forall|b: int| 0 <= b < 4 ==> -25_165_824 <= #[trigger] h.psqt[b] <= 25_165_824,
        h.roomy(),
{
    assert forall|b: int| 0 <= b < 4 implies -25_165_824 <= #[trigger] h.psqt[b]
        <= 25_165_824 by {
        lemma_weights_small(net, perspective, h.bucket as int, h.mirror, b);
        lemma_sum_bound(
            pl,
            psqt_weights(net, perspective, h.bucket as int, h.mirror, b),
            768,
        );
    }
}

/// Add or subtract one column of weights.
fn apply(dst: &mut [i16; 512], col: &[i16; 512], plus: bool)
    ensures
        forall|i: int|
            0 <= i < 512 ==> #[trigger] final(dst)[i] == wrap16(
                if plus { old(dst)[i] + col[i] } else { old(dst)[i] - col[i] },
            ),
{
    let mut n: usize = 0;
    while n < 512
        invariant
            n <= 512,
            forall|i: int|
                0 <= i < n ==> #[trigger] dst[i] == wrap16(
                    if plus { old(dst)[i] + col[i] } else { old(dst)[i] - col[i] },
                ),
            forall|i: int| n <= i < 512 ==> #[trigger] dst[i] == old(dst)[i],
        decreases 512 - n,
    {
        dst[n] = if plus { dst[n].wrapping_add(col[n]) } else { dst[n].wrapping_sub(col[n]) };
        n = n + 1;
    }
}

fn apply_psqt(dst: &mut [i32; 4], col: &[i16; 4], plus: bool)
    requires
        forall|b: int| 0 <= b < 4 ==> -2_000_000_000 <= #[trigger] old(dst)[b] <= 2_000_000_000,
    ensures
        forall|b: int|
            0 <= b < 4 ==> #[trigger] final(dst)[b] == if plus {
                old(dst)[b] + col[b]
            } else {
                old(dst)[b] - col[b]
            },
{
    let mut n: usize = 0;
    while n < 4
        invariant
            n <= 4,
            forall|b: int|
                0 <= b < 4 ==> -2_000_000_000 <= #[trigger] old(dst)[b] <= 2_000_000_000,
            forall|b: int|
                0 <= b < n ==> #[trigger] dst[b] == if plus {
                    old(dst)[b] + col[b]
                } else {
                    old(dst)[b] - col[b]
                },
            forall|b: int| n <= b < 4 ==> #[trigger] dst[b] == old(dst)[b],
        decreases 4 - n,
    {
        assert(dst[n as int] == old(dst)[n as int]);
        dst[n] = if plus { dst[n] + col[n] as i32 } else { dst[n] - col[n] as i32 };
        n = n + 1;
    }
}

/// The partial state of a walk from one placement to another: the first `n`
/// pairs have been brought up to date.
pub open spec fn walked(
    net: Weights,
    values: [i16; 512],
    psqt: [i32; 4],
    perspective: Color,
    bucket: int,
    mirror: bool,
    before: Placement,
    now: Placement,
    n: int,
) -> bool {
    &&& forall|i: int|
        0 <= i < 512 ==> #[trigger] values[i] == wrap16(
            walk_sum(hidden_weights(net, perspective, bucket, mirror, i), before, now, n),
        )
    &&& forall|b: int|
        0 <= b < 4 ==> #[trigger] psqt[b] == walk_sum(
            psqt_weights(net, perspective, bucket, mirror, b),
            before,
            now,
            n,
        )
}

pub open spec fn walk_sum(w: Seq<int>, before: Placement, now: Placement, n: int) -> int {
    sum_upto(now, w, n) + sum_s(before, w) - sum_upto(before, w, n)
}

/// How many of the first `n` pairs are on exactly one of the two boards.
pub open spec fn changes_upto(before: Placement, now: Placement, n: int) -> int
    decreases n,
{
    if n <= 0 {
        0
    } else {
        changes_upto(before, now, n - 1) + if stands(before, n - 1) != stands(now, n - 1) {
            1int
        } else {
            0
        }
    }
}

/// One step of a walk: pair `k` is taken off if only the old board has it, put
/// on if only the new one has it.
fn walk_step(
    net: &Network,
    values: &mut [i16; 512],
    psqt: &mut [i32; 4],
    perspective: Color,
    bucket: usize,
    mirror: bool,
    Ghost(before): Ghost<Placement>,
    Ghost(now): Ghost<Placement>,
    k: usize,
    was: bool,
    is: bool,
)
    requires
        net@.wf(),
        bucket < INPUT_BUCKETS,
        k < 768,
        was == stands(before, k as int),
        is == stands(now, k as int),
        walked(
            net@,
            *old(values),
            *old(psqt),
            perspective,
            bucket as int,
            mirror,
            before,
            now,
            k as int,
        ),
    ensures
        walked(
            net@,
            *final(values),
            *final(psqt),
            perspective,
            bucket as int,
            mirror,
            before,
            now,
            k + 1,
        ),
{
    let ghost v0 = *values;
    let ghost q0 = *psqt;
    if was != is {
        let c: Color = Color::of(k / 384);
        let pt: PieceType = PieceType::of((k / 64) % 6);
        let f: usize = feature(perspective, bucket, mirror, c, pt, (k % 64) as u8);
        proof {
            assert(f == input_s(perspective, bucket as int, mirror, k as int));
            assert forall|b: int| 0 <= b < 4 implies -2_000_000_000 <= #[trigger] psqt[b]
                <= 2_000_000_000 by {
                let w = psqt_weights(net@, perspective, bucket as int, mirror, b);
                lemma_weights_small(net@, perspective, bucket as int, mirror, b);
                lemma_sum_bound(now, w, k as int);
                lemma_sum_bound(before, w, 768);
                lemma_sum_bound(before, w, k as int);
            }
        }
        apply(values, &net.l0w[f], is);
        apply_psqt(psqt, &net.psqt[f], is);
    }
    proof {
        assert forall|i: int| 0 <= i < 512 implies #[trigger] values[i] == wrap16(
            walk_sum(
                hidden_weights(net@, perspective, bucket as int, mirror, i),
                before,
                now,
                k + 1,
            ),
        ) by {
            let w = hidden_weights(net@, perspective, bucket as int, mirror, i);
            let a = walk_sum(w, before, now, k as int);
            assert(v0[i] == wrap16(a));
            lemma_wrap16(a, w[k as int]);
        }
        assert forall|b: int| 0 <= b < 4 implies #[trigger] psqt[b] == walk_sum(
            psqt_weights(net@, perspective, bucket as int, mirror, b),
            before,
            now,
            k + 1,
        ) by {
            assert(q0[b] == walk_sum(
                psqt_weights(net@, perspective, bucket as int, mirror, b),
                before,
                now,
                k as int,
            ));
        }
    }
}

/// Bring the accumulator of one placement to another, returning how many
/// pieces had to be added or taken off.
fn walk(
    net: &Network,
    values: &mut [i16; 512],
    psqt: &mut [i32; 4],
    perspective: Color,
    bucket: usize,
    mirror: bool,
    before: &Placement,
    now: &Placement,
) -> (r: usize)
    requires
        net@.wf(),
        bucket < INPUT_BUCKETS,
        adds_up(net@, *old(values), *old(psqt), perspective, bucket as int, mirror, *before),
    ensures
        adds_up(net@, *final(values), *final(psqt), perspective, bucket as int, mirror, *now),
        r == changes_upto(*before, *now, 768),
{
    let mut k: usize = 0;
    let mut touched: usize = 0;
    while k < 768
        invariant
            k <= 768,
            net@.wf(),
            bucket < INPUT_BUCKETS,
            walked(
                net@,
                *values,
                *psqt,
                perspective,
                bucket as int,
                mirror,
                *before,
                *now,
                k as int,
            ),
            touched == changes_upto(*before, *now, k as int),
            touched <= k,
        decreases 768 - k,
    {
        let s: u8 = (k % 64) as u8;
        let was: bool = holds(before[k / 384][(k / 64) % 6], s);
        let is: bool = holds(now[k / 384][(k / 64) % 6], s);
        walk_step(
            net,
            values,
            psqt,
            perspective,
            bucket,
            mirror,
            Ghost(*before),
            Ghost(*now),
            k,
            was,
            is,
        );
        if was != is {
            touched = touched + 1;
        }
        k = k + 1;
    }
    touched
}

pub open spec fn empty_placement(pl: Placement) -> bool {
    forall|c: int, t: int| 0 <= c < 2 && 0 <= t < 6 ==> #[trigger] pl[c][t] == 0
}

fn no_pieces() -> (r: Placement)
    ensures
        empty_placement(r),
{
    [[0u64; 6]; 2]
}

proof fn lemma_sum_empty(pl: Placement, w: Seq<int>, n: int)
    requires
        empty_placement(pl),
        0 <= n <= 768,
    ensures
        sum_upto(pl, w, n) == 0,
    decreases n,
{
    if n > 0 {
        lemma_sum_empty(pl, w, n - 1);
        crate::bitboard::lemma_bit_ops(0, 0, (n - 1) % 64);
    }
}

proof fn lemma_empty_matches(
    net: Weights,
    values: [i16; 512],
    psqt: [i32; 4],
    perspective: Color,
    bucket: int,
    mirror: bool,
    pl: Placement,
)
    requires
        empty_placement(pl),
        forall|i: int| 0 <= i < 512 ==> #[trigger] values[i] == 0,
        forall|b: int| 0 <= b < 4 ==> #[trigger] psqt[b] == 0,
    ensures
        adds_up(net, values, psqt, perspective, bucket, mirror, pl),
{
    assert forall|i: int| 0 <= i < 512 implies #[trigger] values[i] == wrap16(
        sum_s(pl, hidden_weights(net, perspective, bucket, mirror, i)),
    ) by {
        lemma_sum_empty(pl, hidden_weights(net, perspective, bucket, mirror, i), 768);
    }
    assert forall|b: int| 0 <= b < 4 implies #[trigger] psqt[b] == sum_s(
        pl,
        psqt_weights(net, perspective, bucket, mirror, b),
    ) by {
        lemma_sum_empty(pl, psqt_weights(net, perspective, bucket, mirror, b), 768);
    }
}

/// Build one perspective from nothing.
pub fn rebuild_half(
    net: &Network,
    pieces: &Placement,
    king_sq: Square,
    perspective: Color,
) -> (r: Half)
    requires
        net@.wf(),
        king_sq < 64,
    ensures
        r.holds(net@, perspective, *pieces),
        r.bucket == bucket_s(perspective, king_sq as int),
        r.mirror == mirror_s(perspective, king_sq as int),
{
    let (bucket, mirror) = bucket_and_mirror(perspective, king_sq);
    let mut h = Half::empty();
    h.bucket = bucket;
    h.mirror = mirror;
    let none: Placement = no_pieces();
    proof {
        lemma_empty_matches(
            net@,
            h.values,
            h.psqt,
            perspective,
            bucket as int,
            mirror,
            none,
        );
    }
    let mut values: [i16; 512] = h.values;
    let mut psqt: [i32; 4] = h.psqt;
    walk(net, &mut values, &mut psqt, perspective, bucket, mirror, &none, pieces);
    h.values = values;
    h.psqt = psqt;
    h
}

/// How many of the first `n` pairs are on the board.
pub open spec fn standing_upto(pl: Placement, n: int) -> int
    decreases n,
{
    if n <= 0 {
        0
    } else {
        standing_upto(pl, n - 1) + if stands(pl, n - 1) { 1int } else { 0 }
    }
}

proof fn lemma_changes_from_empty(none: Placement, pl: Placement, n: int)
    requires
        empty_placement(none),
        0 <= n <= 768,
    ensures
        changes_upto(none, pl, n) == standing_upto(pl, n),
    decreases n,
{
    if n > 0 {
        lemma_changes_from_empty(none, pl, n - 1);
        crate::bitboard::lemma_bit_ops(0, 0, (n - 1) % 64);
    }
}

// ---------------------------------------------------------------------------
// Refresh cache
//
// The bucket is the folded king square itself, so every king move invalidates
// one whole perspective. The cache turns the rebuild into a difference: it
// keeps one accumulator per perspective, mirror and bucket alongside the
// placement that produced it, and on a refresh applies only what has changed
// since.
//
// The invariant that makes it safe: an entry that is in use holds an
// accumulator that exactly matches its stored placement.
// ---------------------------------------------------------------------------
#[derive(Clone, Copy)]
pub struct CacheEntry {
    pub values: [i16; 512],
    pub psqt: [i32; 4],
    /// The placement `values` was built from.
    pub pieces: Placement,
    pub used: bool,
}

pub struct RefreshCache {
    pub entries: Vec<CacheEntry>,
}

impl RefreshCache {
    pub open spec fn slot(perspective: Color, bucket: int, mirror: bool) -> int {
        (perspective.index() * 2 + if mirror { 1int } else { 0 }) * 32 + bucket
    }

    /// Entry `j` is the accumulator of the placement it carries.
    pub open spec fn entry_ok(self, net: Weights, j: int) -> bool {
        self.entries@[j].used ==> adds_up(
            net,
            self.entries@[j].values,
            self.entries@[j].psqt,
            Color::at(j / 64),
            j % 32,
            (j / 32) % 2 == 1,
            self.entries@[j].pieces,
        )
    }

    pub open spec fn wf(self, net: Weights) -> bool {
        &&& self.entries@.len() == 128
        &&& forall|j: int| 0 <= j < 128 ==> #[trigger] self.entry_ok(net, j)
    }

    pub open spec fn unused(self) -> bool {
        &&& self.entries@.len() == 128
        &&& forall|j: int| 0 <= j < 128 ==> !(#[trigger] self.entries@[j]).used
    }

    pub fn new() -> (r: Self)
        ensures
            r.unused(),
    {
        let e = CacheEntry {
            values: [0i16; 512],
            psqt: [0i32; 4],
            pieces: no_pieces(),
            used: false,
        };
        let mut entries: Vec<CacheEntry> = Vec::new();
        let mut n: usize = 0;
        while n < 128
            invariant
                n <= 128,
                !e.used,
                entries@.len() == n,
                forall|j: int| 0 <= j < n ==> !(#[trigger] entries@[j]).used,
            decreases 128 - n,
        {
            entries.push(e);
            n = n + 1;
        }
        RefreshCache { entries }
    }

    fn index(perspective: Color, bucket: usize, mirror: bool) -> (r: usize)
        requires
            bucket < INPUT_BUCKETS,
        ensures
            r == Self::slot(perspective, bucket as int, mirror),
            r < 128,
    {
        (perspective.idx() * 2 + (if mirror { 1usize } else { 0 })) * INPUT_BUCKETS + bucket
    }

    /// Bring one perspective up to date, starting from whatever this bucket was
    /// last seen holding. Returns how many piece updates it took.
    pub fn refresh(
        &mut self,
        net: &Network,
        pieces: &Placement,
        perspective: Color,
        bucket: usize,
        mirror: bool,
        dst: &mut Half,
    ) -> (r: usize)
        requires
            net@.wf(),
            old(self).wf(net@),
            bucket < INPUT_BUCKETS,
        ensures
            final(self).wf(net@),
            final(dst).holds(net@, perspective, *pieces),
            final(dst).bucket == bucket,
            final(dst).mirror == mirror,
            ({
                let j = Self::slot(perspective, bucket as int, mirror);
                let e = old(self).entries@[j];
                let n = final(self).entries@[j];
                &&& final(self).entries@ == old(self).entries@.update(j, n)
                &&& n.used
                &&& n.pieces == *pieces
                &&& n.values == final(dst).values
                &&& n.psqt == final(dst).psqt
                &&& e.used ==> r == changes_upto(e.pieces, *pieces, 768)
                &&& !e.used ==> r == standing_upto(*pieces, 768)
            }),
    {
        let j: usize = Self::index(perspective, bucket, mirror);
        let ghost g = j as int;
        proof {
            assert(g / 64 == perspective.index() && g % 32 == bucket && ((g / 32) % 2 == 1)
                == mirror);
            assert(Color::at(g / 64) == perspective);
            assert(self.entry_ok(net@, g));
        }
        let mut e: CacheEntry = self.entries[j];
        if !e.used {
            e.values = [0i16; 512];
            e.psqt = [0i32; 4];
            e.pieces = no_pieces();
            e.used = true;
            proof {
                lemma_empty_matches(
                    net@,
                    e.values,
                    e.psqt,
                    perspective,
                    bucket as int,
                    mirror,
                    e.pieces,
                );
                lemma_changes_from_empty(e.pieces, *pieces, 768);
            }
        }
        let before: Placement = e.pieces;
        let mut values: [i16; 512] = e.values;
        let mut psqt: [i32; 4] = e.psqt;
        let touched: usize = walk(
            net,
            &mut values,
            &mut psqt,
            perspective,
            bucket,
            mirror,
            &before,
            pieces,
        );
        e.values = values;
        e.psqt = psqt;
        e.pieces = *pieces;
        self.entries.set(j, e);
        dst.values = values;
        dst.psqt = psqt;
        dst.bucket = bucket;
        dst.mirror = mirror;
        proof {
            assert forall|i: int| 0 <= i < 128 implies #[trigger] self.entry_ok(net@, i) by {
                assert(old(self).entry_ok(net@, i));
            }
        }
        touched
    }
}

// ---------------------------------------------------------------------------
// Both perspectives
// ---------------------------------------------------------------------------
#[derive(Clone, Copy)]
pub struct Accumulator {
    pub half: [Half; 2],  // indexed by perspective
}

/// `new` is `old` with one column added or taken off.
pub open spec fn shifted(old: Half, new: Half, net: Weights, f: int, plus: bool) -> bool {
    &&& forall|i: int|
        0 <= i < 512 ==> #[trigger] new.values[i] == wrap16(
            if plus { old.values[i] + net.l0w[f][i] } else { old.values[i] - net.l0w[f][i] },
        )
    &&& forall|b: int|
        0 <= b < 4 ==> #[trigger] new.psqt[b] == if plus {
            old.psqt[b] + net.psqt[f][b]
        } else {
            old.psqt[b] - net.psqt[f][b]
        }
    &&& new.bucket == old.bucket
    &&& new.mirror == old.mirror
}

/// The half is in the bucket and mirror its king asks for.
pub open spec fn placed_for(h: Half, perspective: Color, king: int) -> bool {
    h.bucket == bucket_s(perspective, king) && h.mirror == mirror_s(perspective, king)
}

/// The sum of the clipped hidden units times the first `n` of their weights,
/// which start at `off`.
pub open spec fn dot(acc: [i16; 512], w: [i16; 1024], off: int, n: int) -> int
    decreases n,
{
    if n <= 0 {
        0
    } else {
        dot(acc, w, off, n - 1) + clamp3(acc[n - 1] as int, 0, SCALE as int) * w[off + n - 1]
    }
}

/// The score of a pair of halves, in output bucket `b`.
pub open spec fn score_s(net: Weights, us: Half, them: Half, b: int) -> int {
    us.psqt[b] - them.psqt[b] + tdiv(
        wrap32(
            net.l1b[b] * SCALE + dot(us.values, net.l1w[b], 0, 512) + dot(
                them.values,
                net.l1w[b],
                512,
                512,
            ),
        ),
        SCALE as int,
    )
}

fn wrapping_sum(a: i32, b: i32) -> (r: i32)
    ensures
        r == wrap32(a + b),
{
    a.wrapping_add(b)
}

proof fn lemma_wrap_three(a: int, x: int, y: int)
    ensures
        wrap32(wrap32(a + wrap32(x)) + wrap32(y)) == wrap32(a + x + y),
{
    lemma_wrap32(x, a);
    lemma_wrap32(a + x, wrap32(y));
    lemma_wrap32(y, a + x);
}

fn output(acc: &[i16; 512], w: &[i16; 1024], off: usize) -> (r: i32)
    requires
        off <= 512,
    ensures
        r == wrap32(dot(*acc, *w, off as int, 512)),
{
    let mut total: i32 = 0;
    let mut n: usize = 0;
    while n < 512
        invariant
            n <= 512,
            off <= 512,
            total == wrap32(dot(*acc, *w, off as int, n as int)),
        decreases 512 - n,
    {
        let a: i32 = acc[n] as i32;
        let c: i32 = if a < 0 {
            0
        } else if a > SCALE {
            SCALE
        } else {
            a
        };
        let x: i32 = w[off + n] as i32;
        proof {
            assert(-33_554_432 <= c * x <= 33_554_432) by (nonlinear_arith)
                requires
                    0 <= c <= 1024,
                    -32768 <= x <= 32767,
            ;
            lemma_wrap32(dot(*acc, *w, off as int, n as int), c * x);
        }
        total = wrapping_sum(total, c * x);
        n = n + 1;
    }
    total
}

impl Accumulator {
    /// Both halves are the accumulators of one placement.
    pub open spec fn holds(self, net: Weights, pl: Placement) -> bool {
        &&& self.half[0].holds(net, Color::White, pl)
        &&& self.half[1].holds(net, Color::Black, pl)
    }

    /// Both halves are in the buckets of these kings.
    pub open spec fn seated(self, white_king: int, black_king: int) -> bool {
        &&& placed_for(self.half[0], Color::White, white_king)
        &&& placed_for(self.half[1], Color::Black, black_king)
    }

    pub fn empty() -> (r: Self)
        ensures
            r.half[0].zero(),
            r.half[1].zero(),
    {
        Accumulator { half: [Half::empty(), Half::empty()] }
    }

    fn refresh_one(
        &mut self,
        net: &Network,
        pieces: &Placement,
        king: Square,
        p: Color,
        cache: &mut RefreshCache,
    ) -> (r: bool)
        requires
            net@.wf(),
            old(cache).wf(net@),
            king < 64,
        ensures
            final(cache).wf(net@),
            final(self).half[p.other().index()] == old(self).half[p.other().index()],
            r == !placed_for(old(self).half[p.index()], p, king as int),
            placed_for(final(self).half[p.index()], p, king as int),
            !r ==> final(self).half[p.index()] == old(self).half[p.index()],
            r ==> final(self).half[p.index()].holds(net@, p, *pieces),
    {
        let (bucket, mirror) = bucket_and_mirror(p, king);
        let mut h: Half = self.half[p.idx()];
        if h.bucket == bucket && h.mirror == mirror {
            return false;
        }
        cache.refresh(net, pieces, p, bucket, mirror, &mut h);
        self.half[p.idx()] = h;
        true
    }

    /// Rebuild any perspective whose king has moved into a different bucket, or
    /// across the middle where the mirror flips; the other is left alone.
    ///
    /// Returns how many perspectives were rebuilt.
    pub fn refresh(
        &mut self,
        net: &Network,
        pieces: &Placement,
        kings: [Square; 2],
        cache: &mut RefreshCache,
    ) -> (r: u32)
        requires
            net@.wf(),
            old(cache).wf(net@),
            kings[0] < 64,
            kings[1] < 64,
        ensures
            final(cache).wf(net@),
            final(self).seated(kings[0] as int, kings[1] as int),
            ({
                let w = placed_for(old(self).half[0], Color::White, kings[0] as int);
                let b = placed_for(old(self).half[1], Color::Black, kings[1] as int);
                &&& w ==> final(self).half[0] == old(self).half[0]
                &&& !w ==> final(self).half[0].holds(net@, Color::White, *pieces)
                &&& b ==> final(self).half[1] == old(self).half[1]
                &&& !b ==> final(self).half[1].holds(net@, Color::Black, *pieces)
                &&& r == (if w { 0int } else { 1 }) + (if b { 0int } else { 1 })
            }),
    {
        let mut done: u32 = 0;
        if self.refresh_one(net, pieces, kings[0], Color::White, cache) {
            done = done + 1;
        }
        if self.refresh_one(net, pieces, kings[1], Color::Black, cache) {
            done = done + 1;
        }
        done
    }

    /// Build both perspectives from nothing.
    pub fn fresh(net: &Network, pieces: &Placement, kings: [Square; 2]) -> (r: Self)
        requires
            net@.wf(),
            kings[0] < 64,
            kings[1] < 64,
        ensures
            r.holds(net@, *pieces),
            r.seated(kings[0] as int, kings[1] as int),
    {
        Accumulator {
            half: [
                rebuild_half(net, pieces, kings[0], Color::White),
                rebuild_half(net, pieces, kings[1], Color::Black),
            ],
        }
    }

    fn update_one(
        &mut self,
        net: &Network,
        p: Color,
        c: Color,
        pt: PieceType,
        s: Square,
        plus: bool,
    )
        requires
            net@.wf(),
            s < 64,
            old(self).half[p.index()].bucket < INPUT_BUCKETS,
            old(self).half[p.index()].roomy(),
        ensures
            final(self).half[p.other().index()] == old(self).half[p.other().index()],
            ({
                let h = old(self).half[p.index()];
                shifted(
                    h,
                    final(self).half[p.index()],
                    net@,
                    feature_s(p, h.bucket as int, h.mirror, c, pt, s as int),
                    plus,
                )
            }),
    {
        let mut h: Half = self.half[p.idx()];
        let f: usize = feature(p, h.bucket, h.mirror, c, pt, s);
        apply(&mut h.values, &net.l0w[f], plus);
        apply_psqt(&mut h.psqt, &net.psqt[f], plus);
        self.half[p.idx()] = h;
    }

    fn follow_one(&mut self, net: &Network, p: Color, before: &Placement, now: &Placement)
        requires
            net@.wf(),
            old(self).half[p.index()].holds(net@, p, *before),
        ensures
            final(self).half[p.other().index()] == old(self).half[p.other().index()],
            final(self).half[p.index()].holds(net@, p, *now),
            final(self).half[p.index()].bucket == old(self).half[p.index()].bucket,
            final(self).half[p.index()].mirror == old(self).half[p.index()].mirror,
    {
        let mut h: Half = self.half[p.idx()];
        let mut values: [i16; 512] = h.values;
        let mut psqt: [i32; 4] = h.psqt;
        walk(net, &mut values, &mut psqt, p, h.bucket, h.mirror, before, now);
        h.values = values;
        h.psqt = psqt;
        self.half[p.idx()] = h;
    }

    /// Bring both perspectives from one placement to another, piece by piece,
    /// in the buckets they are in.
    pub fn follow(&mut self, net: &Network, before: &Placement, now: &Placement)
        requires
            net@.wf(),
            old(self).holds(net@, *before),
        ensures
            final(self).holds(net@, *now),
            final(self).half[0].bucket == old(self).half[0].bucket,
            final(self).half[0].mirror == old(self).half[0].mirror,
            final(self).half[1].bucket == old(self).half[1].bucket,
            final(self).half[1].mirror == old(self).half[1].mirror,
    {
        self.follow_one(net, Color::White, before, now);
        self.follow_one(net, Color::Black, before, now);
    }

    /// One piece appearing on or leaving a square, for both perspectives.
    pub fn update(&mut self, net: &Network, c: Color, pt: PieceType, s: Square, plus: bool)
        requires
            net@.wf(),
            s < 64,
            old(self).half[0].bucket < INPUT_BUCKETS,
            old(self).half[1].bucket < INPUT_BUCKETS,
            old(self).half[0].roomy(),
            old(self).half[1].roomy(),
        ensures
            forall|p: int|
                0 <= p < 2 ==> ({
                    let h = old(self).half[p];
                    shifted(
                        h,
                        #[trigger] final(self).half[p],
                        net@,
                        feature_s(Color::at(p), h.bucket as int, h.mirror, c, pt, s as int),
                        plus,
                    )
                }),
    {
        self.update_one(net, Color::White, c, pt, s, plus);
        self.update_one(net, Color::Black, c, pt, s, plus);
    }

    fn forward(us: &Half, them: &Half, w: &[i16; 1024], bias: i16) -> (r: i32)
        ensures
            r == wrap32(
                bias * SCALE + dot(us.values, *w, 0, 512) + dot(them.values, *w, 512, 512),
            ),
    {
        let base: i32 = bias as i32 * SCALE;
        let a: i32 = output(&us.values, w, 0);
        let b: i32 = output(&them.values, w, HIDDEN);
        proof {
            lemma_wrap_three(
                base as int,
                dot(us.values, *w, 0, 512),
                dot(them.values, *w, 512, 512),
            );
        }
        wrapping_sum(wrapping_sum(base, a), b)
    }

    /// The score, from the side to move's point of view.
    pub fn eval(&self, net: &Network, stm: Color, piece_count: u32) -> (r: i32)
        requires
            net@.wf(),
            1 <= piece_count <= 32,
            self.half[0].roomy(),
            self.half[1].roomy(),
        ensures
            r == score_s(
                net@,
                self.half[stm.index()],
                self.half[stm.other().index()],
                (piece_count - 1) / 8,
            ),
    {
        let bucket: usize = ((piece_count - 1) / 8) as usize;
        let us: &Half = &self.half[stm.idx()];
        let them: &Half = &self.half[stm.opp().idx()];
        let w: &[i16; 1024] = &net.l1w[bucket];
        let out: i32 = Self::forward(us, them, w, net.l1b[bucket]);
        assert(-1_000_000_000 <= us.psqt[bucket as int] <= 1_000_000_000);
        assert(-1_000_000_000 <= them.psqt[bucket as int] <= 1_000_000_000);
        us.psqt[bucket] - them.psqt[bucket] + out / SCALE
    }
}

// ---------------------------------------------------------------------------
// The score of a placement
// ---------------------------------------------------------------------------
/// As [`dot`], over the hidden units that a placement adds up to.
pub open spec fn dot_of(
    net: Weights,
    perspective: Color,
    king: int,
    pl: Placement,
    w: [i16; 1024],
    off: int,
    n: int,
) -> int
    decreases n,
{
    if n <= 0 {
        0
    } else {
        dot_of(net, perspective, king, pl, w, off, n - 1) + clamp3(
            wrap16(
                sum_s(
                    pl,
                    hidden_weights(
                        net,
                        perspective,
                        bucket_s(perspective, king),
                        mirror_s(perspective, king),
                        n - 1,
                    ),
                ),
            ),
            0,
            SCALE as int,
        ) * w[off + n - 1]
    }
}

pub open spec fn psqt_of(
    net: Weights,
    perspective: Color,
    king: int,
    pl: Placement,
    b: int,
) -> int {
    sum_s(
        pl,
        psqt_weights(
            net,
            perspective,
            bucket_s(perspective, king),
            mirror_s(perspective, king),
            b,
        ),
    )
}

/// What the network says of a placement with these kings, seen by `stm`, in
/// output bucket `b`.
pub open spec fn placement_score(
    net: Weights,
    pl: Placement,
    stm: Color,
    our_king: int,
    their_king: int,
    b: int,
) -> int {
    psqt_of(net, stm, our_king, pl, b) - psqt_of(net, stm.other(), their_king, pl, b) + tdiv(
        wrap32(
            net.l1b[b] * SCALE + dot_of(net, stm, our_king, pl, net.l1w[b], 0, 512) + dot_of(
                net,
                stm.other(),
                their_king,
                pl,
                net.l1w[b],
                512,
                512,
            ),
        ),
        SCALE as int,
    )
}

proof fn lemma_dot(
    net: Weights,
    h: Half,
    perspective: Color,
    king: int,
    pl: Placement,
    w: [i16; 1024],
    off: int,
    n: int,
)
    requires
        h.holds(net, perspective, pl),
        placed_for(h, perspective, king),
        0 <= n <= 512,
    ensures
        dot(h.values, w, off, n) == dot_of(net, perspective, king, pl, w, off, n),
    decreases n,
{
    if n > 0 {
        lemma_dot(net, h, perspective, king, pl, w, off, n - 1);
        assert(h.values[n - 1] == wrap16(
            sum_s(
                pl,
                hidden_weights(
                    net,
                    perspective,
                    bucket_s(perspective, king),
                    mirror_s(perspective, king),
                    n - 1,
                ),
            ),
        ));
    }
}

/// An accumulator that holds a placement and sits in its kings' buckets scores
/// that placement, however it was arrived at.
pub proof fn lemma_score(
    net: Weights,
    acc: Accumulator,
    pl: Placement,
    stm: Color,
    white_king: int,
    black_king: int,
    b: int,
)
    requires
        acc.holds(net, pl),
        acc.seated(white_king, black_king),
        0 <= b < 4,
    ensures
        score_s(net, acc.half[stm.index()], acc.half[stm.other().index()], b) == placement_score(
            net,
            pl,
            stm,
            if stm == Color::White { white_king } else { black_king },
            if stm == Color::White { black_king } else { white_king },
            b,
        ),
{
    let ours = if stm == Color::White { white_king } else { black_king };
    let theirs = if stm == Color::White { black_king } else { white_king };
    lemma_dot(net, acc.half[stm.index()], stm, ours, pl, net.l1w[b], 0, 512);
    lemma_dot(net, acc.half[stm.other().index()], stm.other(), theirs, pl, net.l1w[b], 512, 512);
    assert(acc.half[stm.index()].psqt[b] == psqt_of(net, stm, ours, pl, b));
    assert(acc.half[stm.other().index()].psqt[b] == psqt_of(net, stm.other(), theirs, pl, b));
}

/// No placement is scored further from zero than this.
pub const SCORE_CAP: i32 = 67_108_864;

pub proof fn lemma_score_bound(
    net: Weights,
    pl: Placement,
    stm: Color,
    our_king: int,
    their_king: int,
    b: int,
)
    ensures
        -SCORE_CAP < placement_score(net, pl, stm, our_king, their_king, b) < SCORE_CAP,
{
    let p = stm;
    let q = stm.other();
    lemma_weights_small(net, p, bucket_s(p, our_king), mirror_s(p, our_king), b);
    lemma_weights_small(net, q, bucket_s(q, their_king), mirror_s(q, their_king), b);
    lemma_sum_bound(
        pl,
        psqt_weights(net, p, bucket_s(p, our_king), mirror_s(p, our_king), b),
        768,
    );
    lemma_sum_bound(
        pl,
        psqt_weights(net, q, bucket_s(q, their_king), mirror_s(q, their_king), b),
        768,
    );
    let x = net.l1b[b] * SCALE + dot_of(net, p, our_king, pl, net.l1w[b], 0, 512) + dot_of(
        net,
        q,
        their_king,
        pl,
        net.l1w[b],
        512,
        512,
    );
    lemma_wrap32(x, 0);
    assert(-2_097_152 <= tdiv(wrap32(x), 1024) <= 2_097_152);
}

// ---------------------------------------------------------------------------
// Laws
// ---------------------------------------------------------------------------
/// The same placement under the same bucket and mirror has one accumulator:
/// what the cache hands back is what a rebuild from nothing would have been.
pub proof fn law_accumulator_unique(
    a: Half,
    b: Half,
    net: Weights,
    perspective: Color,
    pl: Placement,
)
    requires
        a.holds(net, perspective, pl),
        b.holds(net, perspective, pl),
        a.bucket == b.bucket,
        a.mirror == b.mirror,
    ensures
        a == b,
{
    assert forall|i: int| 0 <= i < 512 implies a.values[i] == b.values[i] by {
        assert(a.values[i] == wrap16(
            sum_s(pl, hidden_weights(net, perspective, a.bucket as int, a.mirror, i)),
        ));
        assert(b.values[i] == wrap16(
            sum_s(pl, hidden_weights(net, perspective, b.bucket as int, b.mirror, i)),
        ));
    }
    assert forall|i: int| 0 <= i < 4 implies a.psqt[i] == b.psqt[i] by {
        assert(a.psqt[i] == sum_s(
            pl,
            psqt_weights(net, perspective, a.bucket as int, a.mirror, i),
        ));
        assert(b.psqt[i] == sum_s(
            pl,
            psqt_weights(net, perspective, b.bucket as int, b.mirror, i),
        ));
    }
    assert(a.values =~= b.values);
    assert(a.psqt =~= b.psqt);
}

/// Updating the accumulator of a placement gives the accumulator of the
/// placement with that piece put on, or taken off.
pub proof fn law_update_follows_the_board(
    old: Half,
    new: Half,
    net: Weights,
    perspective: Color,
    pl: Placement,
    c: Color,
    pt: PieceType,
    s: int,
    plus: bool,
)
    requires
        0 <= s < 64,
        old.holds(net, perspective, pl),
        on(pl, c.index(), pt.index(), s) == !plus,
        shifted(
            old,
            new,
            net,
            feature_s(perspective, old.bucket as int, old.mirror, c, pt, s),
            plus,
        ),
    ensures
        plus ==> new.holds(net, perspective, placed(pl, c.index(), pt.index(), s)),
        !plus ==> new.holds(net, perspective, removed(pl, c.index(), pt.index(), s)),
{
    let k = pair_of(c.index(), pt.index(), s);
    let next = if plus {
        placed(pl, c.index(), pt.index(), s)
    } else {
        removed(pl, c.index(), pt.index(), s)
    };
    let b = old.bucket as int;
    let m = old.mirror;
    lemma_pair(c.index(), pt.index(), s);
    assert(Color::at(c.index()) == c && PieceType::at(pt.index()) == pt);
    assert forall|i: int| 0 <= i < 512 implies #[trigger] new.values[i] == wrap16(
        sum_s(next, hidden_weights(net, perspective, b, m, i)),
    ) by {
        let w = hidden_weights(net, perspective, b, m, i);
        lemma_sum_update(pl, w, c.index(), pt.index(), s, 768);
        lemma_wrap16(sum_s(pl, w), w[k]);
        assert(old.values[i] == wrap16(sum_s(pl, w)));
    }
    assert forall|i: int| 0 <= i < 4 implies #[trigger] new.psqt[i] == sum_s(
        next,
        psqt_weights(net, perspective, b, m, i),
    ) by {
        let w = psqt_weights(net, perspective, b, m, i);
        lemma_sum_update(pl, w, c.index(), pt.index(), s, 768);
        assert(old.psqt[i] == sum_s(pl, w));
    }
}

/// Taking a column off again undoes adding it, exactly.
pub proof fn law_update_undone(a: Half, b: Half, c: Half, net: Weights, f: int, plus: bool)
    requires
        shifted(a, b, net, f, plus),
        shifted(b, c, net, f, !plus),
    ensures
        c == a,
{
    assert forall|i: int| 0 <= i < 512 implies c.values[i] == a.values[i] by {
        let x = a.values[i] as int;
        let y = net.l0w[f][i] as int;
        lemma_wrap16(x + y, y);
        lemma_wrap16(x - y, y);
        lemma_wrap16(x, 0);
        assert(b.values[i] == wrap16(if plus { x + y } else { x - y }));
    }
    assert forall|i: int| 0 <= i < 4 implies c.psqt[i] == a.psqt[i] by {
        assert(b.psqt[i] == if plus {
            a.psqt[i] + net.psqt[f][i]
        } else {
            a.psqt[i] - net.psqt[f][i]
        });
    }
    assert(c.values =~= a.values);
    assert(c.psqt =~= a.psqt);
}

/// Turning a square over twice gives it back.
proof fn lemma_flips(s: int)
    requires
        0 <= s < 64,
    ensures
        0 <= flip_file_s(s) < 64,
        0 <= flip_rank_s(s) < 64,
        flip_file_s(flip_file_s(s)) == s,
        flip_rank_s(flip_rank_s(s)) == s,
{
}

/// The parts of an input number can be read off it.
proof fn lemma_digits(x: int, v: int, t: int, c: int, b: int)
    requires
        x == v + t * 64 + c * 384 + b * 768,
        0 <= v < 64,
        0 <= t < 6,
        0 <= c < 2,
        0 <= b,
    ensures
        v == x % 64,
        t == (x / 64) % 6,
        c == (x / 384) % 2,
        b == x / 768,
{
    let y = t + c * 6 + b * 12;
    assert(x == v + 64 * y);
    assert(x / 64 == y);
    assert(y == t + 6 * (c + 2 * b));
    assert(x == (v + t * 64) + 384 * (c + 2 * b));
    assert(x / 384 == c + 2 * b);
}

/// Two pieces share an input number only when they are the same piece on the
/// same square; a different bucket never shares one.
pub proof fn law_feature_injective(
    perspective: Color,
    mirror: bool,
    b1: int,
    c1: Color,
    t1: PieceType,
    s1: int,
    b2: int,
    c2: Color,
    t2: PieceType,
    s2: int,
)
    requires
        0 <= b1 < INPUT_BUCKETS,
        0 <= b2 < INPUT_BUCKETS,
        0 <= s1 < 64,
        0 <= s2 < 64,
        feature_s(perspective, b1, mirror, c1, t1, s1) == feature_s(
            perspective,
            b2,
            mirror,
            c2,
            t2,
            s2,
        ),
    ensures
        b1 == b2,
        c1 == c2,
        t1 == t2,
        s1 == s2,
{
    let x = feature_s(perspective, b1, mirror, c1, t1, s1);
    let v1 = if mirror { flip_file_s(own_view(perspective, s1)) } else { own_view(perspective, s1) };
    let v2 = if mirror { flip_file_s(own_view(perspective, s2)) } else { own_view(perspective, s2) };
    let p1 = if perspective == Color::Black { c1.other() } else { c1 };
    let p2 = if perspective == Color::Black { c2.other() } else { c2 };
    lemma_flips(s1);
    lemma_flips(s2);
    lemma_flips(own_view(perspective, s1));
    lemma_flips(own_view(perspective, s2));
    lemma_digits(x, v1, t1.index(), p1.index(), b1);
    lemma_digits(x, v2, t2.index(), p2.index(), b2);
}

/// Both sides present the network with the same problem: Black's view of a
/// piece is White's view of the same piece with the colours exchanged and the
/// board turned over.
pub proof fn law_perspectives_agree(
    bucket: int,
    mirror: bool,
    c: Color,
    pt: PieceType,
    s: int,
    king: int,
)
    requires
        0 <= s < 64,
        0 <= king < 64,
    ensures
        feature_s(Color::Black, bucket, mirror, c, pt, s) == feature_s(
            Color::White,
            bucket,
            mirror,
            c.other(),
            pt,
            flip_rank_s(s),
        ),
        bucket_s(Color::Black, king) == bucket_s(Color::White, flip_rank_s(king)),
        mirror_s(Color::Black, king) == mirror_s(Color::White, flip_rank_s(king)),
{
}

/// Kings on mirrored squares fold to the same bucket and need opposite mirrors,
/// so neither alone says how the board is read.
pub proof fn law_mirrored_kings(perspective: Color, king: int)
    requires
        0 <= king < 64,
    ensures
        bucket_s(perspective, king) == bucket_s(perspective, flip_file_s(king)),
        mirror_s(perspective, king) != mirror_s(perspective, flip_file_s(king)),
{
}

/// The square a king stands on, read off its bucket and its mirror.
proof fn lemma_unfolded(perspective: Color, king: int)
    requires
        0 <= king < 64,
    ensures
        ({
            let b = bucket_s(perspective, king);
            own_view(perspective, king) == 8 * (b / 4) + (if mirror_s(perspective, king) {
                7 - b % 4
            } else {
                b % 4
            })
        }),
{
    lemma_flips(king);
    let k = own_view(perspective, king);
    let rank = k / 8;
    let file = k % 8;
    assert(k == 8 * rank + file && 0 <= rank < 8 && 0 <= file < 8);
    let folded = if file >= 4 { 7 - file } else { file };
    let f = if file >= 4 { flip_file_s(k) } else { k };
    assert(f == 8 * rank + folded);
    assert(f / 8 == rank && f % 8 == folded);
    assert(bucket_s(perspective, king) == 4 * rank + folded);
}

/// The bucket and the mirror together name the king's square: every king move
/// changes how its own side reads the board.
pub proof fn law_every_king_move_changes_the_view(perspective: Color, a: int, b: int)
    requires
        0 <= a < 64,
        0 <= b < 64,
        bucket_s(perspective, a) == bucket_s(perspective, b),
        mirror_s(perspective, a) == mirror_s(perspective, b),
    ensures
        a == b,
{
    lemma_unfolded(perspective, a);
    lemma_unfolded(perspective, b);
    lemma_flips(a);
    lemma_flips(b);
}

// ---------------------------------------------------------------------------
// The file
// ---------------------------------------------------------------------------
/// The little-endian sixteen bit number at `at`.
pub open spec fn le16(bytes: Seq<u8>, at: int) -> int {
    let v = bytes[at] + 256 * bytes[at + 1];
    if v >= 32768 { v - 65536 } else { v }
}

/// The file is the weights in declaration order with no header.
pub open spec fn decoded(bytes: Seq<u8>, net: Weights) -> bool {
    &&& net.wf()
    &&& forall|f: int, i: int|
        0 <= f < 24576 && 0 <= i < 512 ==> #[trigger] net.l0w[f][i] == le16(
            bytes,
            2 * (f * 512 + i),
        )
    &&& forall|f: int, b: int|
        0 <= f < 24576 && 0 <= b < 4 ==> #[trigger] net.psqt[f][b] == le16(
            bytes,
            25165824 + 2 * (f * 4 + b),
        )
    &&& forall|b: int, i: int|
        0 <= b < 4 && 0 <= i < 1024 ==> #[trigger] net.l1w[b][i] == le16(
            bytes,
            25362432 + 2 * (b * 1024 + i),
        )
    &&& forall|b: int| 0 <= b < 4 ==> #[trigger] net.l1b[b] == le16(bytes, 25370624 + 2 * b)
}

fn read16(bytes: &[u8], at: usize) -> (r: i16)
    requires
        at + 1 < bytes@.len(),
    ensures
        r == le16(bytes@, at as int),
{
    let v: i32 = bytes[at] as i32 + 256 * bytes[at + 1] as i32;
    if v >= 32768 { (v - 65536) as i16 } else { v as i16 }
}

fn read_hidden(bytes: &[u8], at: usize) -> (r: [i16; 512])
    requires
        at + 1024 <= bytes@.len(),
    ensures
        forall|i: int| 0 <= i < 512 ==> #[trigger] r[i] == le16(bytes@, at + 2 * i),
{
    let size: usize = bytes.len();
    let mut row: [i16; 512] = [0i16; 512];
    let mut n: usize = 0;
    while n < 512
        invariant
            n <= 512,
            size == bytes@.len(),
            at + 1024 <= size,
            forall|i: int| 0 <= i < n ==> #[trigger] row[i] == le16(bytes@, at + 2 * i),
        decreases 512 - n,
    {
        row[n] = read16(bytes, at + 2 * n);
        n = n + 1;
    }
    row
}

fn read_output(bytes: &[u8], at: usize) -> (r: [i16; 1024])
    requires
        at + 2048 <= bytes@.len(),
    ensures
        forall|i: int| 0 <= i < 1024 ==> #[trigger] r[i] == le16(bytes@, at + 2 * i),
{
    let size: usize = bytes.len();
    let mut row: [i16; 1024] = [0i16; 1024];
    let mut n: usize = 0;
    while n < 1024
        invariant
            n <= 1024,
            size == bytes@.len(),
            at + 2048 <= size,
            forall|i: int| 0 <= i < n ==> #[trigger] row[i] == le16(bytes@, at + 2 * i),
        decreases 1024 - n,
    {
        row[n] = read16(bytes, at + 2 * n);
        n = n + 1;
    }
    row
}

fn read_four(bytes: &[u8], at: usize) -> (r: [i16; 4])
    requires
        at + 8 <= bytes@.len(),
    ensures
        forall|i: int| 0 <= i < 4 ==> #[trigger] r[i] == le16(bytes@, at + 2 * i),
{
    let size: usize = bytes.len();
    assert(at + 8 <= size);
    let mut row: [i16; 4] = [0i16; 4];
    row[0] = read16(bytes, at);
    row[1] = read16(bytes, at + 2);
    row[2] = read16(bytes, at + 4);
    row[3] = read16(bytes, at + 6);
    row
}

impl Network {
    /// Read the weights from the bytes of a file. A file of any other size is
    /// not this network, and its size is the error.
    pub fn load(bytes: &[u8]) -> (r: Result<Network, usize>)
        ensures
            r is Ok <==> bytes@.len() == NET_BYTES,
            r matches Ok(n) ==> decoded(bytes@, n@),
            r matches Err(n) ==> n == bytes@.len(),
    {
        if bytes.len() != NET_BYTES {
            return Err(bytes.len());
        }
        let mut l0w: Vec<[i16; 512]> = Vec::new();
        let mut f: usize = 0;
        while f < 24576
            invariant
                f <= 24576,
                bytes@.len() == NET_BYTES,
                l0w@.len() == f,
                forall|g: int, i: int|
                    0 <= g < f && 0 <= i < 512 ==> #[trigger] l0w@[g][i] == le16(
                        bytes@,
                        2 * (g * 512 + i),
                    ),
            decreases 24576 - f,
        {
            let row: [i16; 512] = read_hidden(bytes, f * 1024);
            assert forall|i: int| 0 <= i < 512 implies #[trigger] row[i] == le16(
                bytes@,
                2 * (f * 512 + i),
            ) by {
                assert(f * 1024 + 2 * i == 2 * (f * 512 + i));
            }
            l0w.push(row);
            f = f + 1;
        }
        let mut psqt: Vec<[i16; 4]> = Vec::new();
        let mut f: usize = 0;
        while f < 24576
            invariant
                f <= 24576,
                bytes@.len() == NET_BYTES,
                psqt@.len() == f,
                forall|g: int, i: int|
                    0 <= g < f && 0 <= i < 4 ==> #[trigger] psqt@[g][i] == le16(
                        bytes@,
                        25165824 + 2 * (g * 4 + i),
                    ),
            decreases 24576 - f,
        {
            let row: [i16; 4] = read_four(bytes, 25165824 + f * 8);
            assert forall|i: int| 0 <= i < 4 implies #[trigger] row[i] == le16(
                bytes@,
                25165824 + 2 * (f * 4 + i),
            ) by {
                assert(25165824 + f * 8 + 2 * i == 25165824 + 2 * (f * 4 + i));
            }
            psqt.push(row);
            f = f + 1;
        }
        let mut l1w: Vec<[i16; 1024]> = Vec::new();
        let mut f: usize = 0;
        while f < 4
            invariant
                f <= 4,
                bytes@.len() == NET_BYTES,
                l1w@.len() == f,
                forall|g: int, i: int|
                    0 <= g < f && 0 <= i < 1024 ==> #[trigger] l1w@[g][i] == le16(
                        bytes@,
                        25362432 + 2 * (g * 1024 + i),
                    ),
            decreases 4 - f,
        {
            let row: [i16; 1024] = read_output(bytes, 25362432 + f * 2048);
            assert forall|i: int| 0 <= i < 1024 implies #[trigger] row[i] == le16(
                bytes@,
                25362432 + 2 * (f * 1024 + i),
            ) by {
                assert(25362432 + f * 2048 + 2 * i == 25362432 + 2 * (f * 1024 + i));
            }
            l1w.push(row);
            f = f + 1;
        }
        let l1b: [i16; 4] = read_four(bytes, 25370624);
        Ok(Network { l0w, psqt, l1w, l1b })
    }
}

// ---------------------------------------------------------------------------
// The one network
// ---------------------------------------------------------------------------
/// The one network, set once, and the refresh cache that belongs to it.
pub struct Evaluator {
    pub network: Option<Network>,
    pub cache: RefreshCache,
}

impl Evaluator {
    /// The installed weights.
    pub open spec fn weights(&self) -> Option<Weights> {
        match self.network {
            Some(n) => Some(n@),
            None => None,
        }
    }

    pub open spec fn wf(&self) -> bool {
        match self.network {
            Some(n) => n@.wf() && self.cache.wf(n@),
            None => self.cache.unused(),
        }
    }

    /// No network yet.
    pub fn new() -> (r: Self)
        ensures
            r.wf(),
            r.weights() is None,
    {
        Evaluator { network: None, cache: RefreshCache::new() }
    }
}

pub fn net(ev: &Evaluator) -> (r: Option<&Network>)
    ensures
        r is Some == ev.weights() is Some,
        r matches Some(n) ==> ev.weights() == Some(n@),
{
    match &ev.network {
        Some(n) => Some(n),
        None => None,
    }
}

/// Returns false, and changes nothing, if a network was already installed.
pub fn install(ev: &mut Evaluator, n: Network) -> (r: bool)
    requires
        old(ev).wf(),
        n@.wf(),
    ensures
        final(ev).wf(),
        r == (old(ev).weights() is None),
        r ==> final(ev).weights() == Some(n@),
        !r ==> *final(ev) == *old(ev),
{
    if ev.network.is_some() {
        return false;
    }
    ev.network = Some(n);
    proof {
        assert forall|j: int| 0 <= j < 128 implies #[trigger] ev.cache.entry_ok(n@, j) by {
            assert(!ev.cache.entries@[j].used);
        }
    }
    true
}

}
