//! Sets of squares as 64 bit words.
use vstd::prelude::*;

verus! {

pub type Bitboard = u64;

/// Square `s` is in the set.
pub open spec fn bit(bb: u64, s: int) -> bool {
    (bb >> (s as u64)) & 1u64 == 1u64
}

pub open spec fn with_bit(bb: u64, s: int) -> u64 {
    bb | (1u64 << (s as u64))
}

pub open spec fn without_bit(bb: u64, s: int) -> u64 {
    bb & !(1u64 << (s as u64))
}

pub fn holds(bb: u64, s: u8) -> (r: bool)
    requires
        s < 64,
    ensures
        r == bit(bb, s as int),
{
    (bb >> (s as u64)) & 1 == 1
}

pub fn put(bb: u64, s: u8) -> (r: u64)
    requires
        s < 64,
    ensures
        r == with_bit(bb, s as int),
{
    bb | (1u64 << (s as u64))
}

pub fn drop_bit(bb: u64, s: u8) -> (r: u64)
    requires
        s < 64,
    ensures
        r == without_bit(bb, s as int),
{
    bb & !(1u64 << (s as u64))
}

proof fn bv_with(bb: u64, s: u64, k: u64)
    by (bit_vector)
    requires
        s < 64,
        k < 64,
    ensures
        ((bb | (1u64 << s)) >> k) & 1u64 == 1u64 <==> (s == k || (bb >> k) & 1u64 == 1u64),
        ((bb & !(1u64 << s)) >> k) & 1u64 == 1u64 <==> (s != k && (bb >> k) & 1u64 == 1u64),
{
}

/// Adding a square adds that square and no other; likewise for removing one.
pub proof fn lemma_bit_update(bb: u64, s: int, k: int)
    requires
        0 <= s < 64,
        0 <= k < 64,
    ensures
        bit(with_bit(bb, s), k) == (k == s || bit(bb, k)),
        bit(without_bit(bb, s), k) == (k != s && bit(bb, k)),
{
    bv_with(bb, s as u64, k as u64);
}

proof fn bv_ops(a: u64, b: u64, k: u64)
    by (bit_vector)
    requires
        k < 64,
    ensures
        ((a | b) >> k) & 1u64 == 1u64 <==> ((a >> k) & 1u64 == 1u64 || (b >> k) & 1u64 == 1u64),
        ((a & !b) >> k) & 1u64 == 1u64 <==> ((a >> k) & 1u64 == 1u64 && !((b >> k) & 1u64
            == 1u64)),
        (0u64 >> k) & 1u64 == 0u64,
{
}

/// Union, difference and the empty set, square by square.
pub proof fn lemma_bit_ops(a: u64, b: u64, k: int)
    requires
        0 <= k < 64,
    ensures
        bit(a | b, k) == (bit(a, k) || bit(b, k)),
        bit(a & !b, k) == (bit(a, k) && !bit(b, k)),
        !bit(0u64, k),
{
    bv_ops(a, b, k as u64);
}

proof fn bv_edges(bb: u64, s: u64)
    by (bit_vector)
    requires
        s < 64,
    ensures
        bb | (1u64 << s) != 0,
        !((bb >> s) & 1u64 == 1u64) ==> bb & !(1u64 << s) == bb,
{
}

/// A set with a square added is not empty, and removing a square that is not
/// there changes nothing.
pub proof fn lemma_bit_edges(bb: u64, s: int)
    requires
        0 <= s < 64,
    ensures
        with_bit(bb, s) != 0,
        !bit(bb, s) ==> without_bit(bb, s) == bb,
{
    bv_edges(bb, s as u64);
}

proof fn bv_low(bb: u64, n: u64)
    by (bit_vector)
    requires
        n < 64,
        (bb >> n) != 0,
        !((bb >> n) & 1u64 == 1u64),
    ensures
        n < 63,
        (bb >> ((n + 1) as u64)) != 0,
{
}

proof fn bv_start(bb: u64)
    by (bit_vector)
    ensures
        bb >> 0u64 == bb,
{
}

proof fn lemma_member_from(bb: u64, n: int) -> (s: int)
    requires
        0 <= n < 64,
        (bb >> (n as u64)) != 0,
    ensures
        n <= s < 64,
        bit(bb, s),
    decreases 64 - n,
{
    if bit(bb, n) {
        n
    } else {
        bv_low(bb, n as u64);
        lemma_member_from(bb, n + 1)
    }
}

/// A set that is not empty has a lowest square.
pub proof fn lemma_lowest_exists(bb: u64)
    requires
        bb != 0,
    ensures
        0 <= lowest_s(bb) < 64,
        bit(bb, lowest_s(bb)),
{
    bv_start(bb);
    let s = lemma_member_from(bb, 0);
    lemma_lowest(bb, 0);
}

/// How many squares below `n` are in the set.
pub open spec fn count_below(bb: u64, n: int) -> int
    decreases n,
{
    if n <= 0 {
        0
    } else {
        count_below(bb, n - 1) + if bit(bb, n - 1) { 1int } else { 0 }
    }
}

pub open spec fn count_s(bb: u64) -> int {
    count_below(bb, 64)
}

/// The number of squares in the set.
pub fn count_ones(bb: u64) -> (r: u32)
    ensures
        r == count_s(bb),
        r <= 64,
{
    let mut n: u8 = 0;
    let mut c: u32 = 0;
    while n < 64
        invariant
            n <= 64,
            c == count_below(bb, n as int),
            c <= n,
        decreases 64 - n,
    {
        if holds(bb, n) {
            c = c + 1;
        }
        n = n + 1;
    }
    c
}

pub proof fn lemma_count_range(bb: u64, n: int)
    requires
        0 <= n,
    ensures
        0 <= count_below(bb, n) <= n,
    decreases n,
{
    if n > 0 {
        lemma_count_range(bb, n - 1);
    }
}

/// Adding a square raises the count by at most one; removing one that is there
/// lowers it by one, and removing one that is not changes nothing.
pub proof fn lemma_count_update(bb: u64, s: int, n: int)
    requires
        0 <= s < 64,
        0 <= n <= 64,
    ensures
        count_below(with_bit(bb, s), n) == count_below(bb, n) + if s < n && !bit(bb, s) {
            1int
        } else {
            0
        },
        count_below(without_bit(bb, s), n) == count_below(bb, n) - if s < n && bit(bb, s) {
            1int
        } else {
            0
        },
    decreases n,
{
    if n > 0 {
        lemma_count_update(bb, s, n - 1);
        lemma_bit_update(bb, s, n - 1);
    }
}

/// A smaller set has a smaller count.
pub proof fn lemma_count_subset(a: u64, b: u64, n: int)
    requires
        0 <= n <= 64,
        forall|k: int| 0 <= k < 64 && bit(a, k) ==> bit(b, k),
    ensures
        count_below(a, n) <= count_below(b, n),
    decreases n,
{
    if n > 0 {
        lemma_count_subset(a, b, n - 1);
    }
}

/// A set with a member has a positive count.
pub proof fn lemma_count_positive(bb: u64, s: int, n: int)
    requires
        0 <= s < n <= 64,
        bit(bb, s),
    ensures
        count_below(bb, n) >= 1,
    decreases n,
{
    lemma_count_range(bb, n - 1);
    if s < n - 1 {
        lemma_count_positive(bb, s, n - 1);
    }
}

/// The lowest square of the set that is at least `s`, or 64.
pub open spec fn lowest_from(bb: u64, s: int) -> int
    decreases 64 - s,
{
    if s >= 64 {
        64
    } else if bit(bb, s) {
        s
    } else {
        lowest_from(bb, s + 1)
    }
}

pub open spec fn lowest_s(bb: u64) -> int {
    lowest_from(bb, 0)
}

/// The lowest square of the set, or 64 when it is empty.
pub fn lowest(bb: u64) -> (r: u8)
    ensures
        r == lowest_s(bb),
        r <= 64,
{
    let mut s: u8 = 0;
    while s < 64
        invariant
            s <= 64,
            lowest_from(bb, s as int) == lowest_s(bb),
        decreases 64 - s,
    {
        if holds(bb, s) {
            return s;
        }
        s = s + 1;
    }
    64
}

pub proof fn lemma_lowest(bb: u64, s: int)
    requires
        0 <= s <= 64,
    ensures
        s <= lowest_from(bb, s) <= 64,
        lowest_from(bb, s) < 64 ==> bit(bb, lowest_from(bb, s)),
        forall|k: int| s <= k < lowest_from(bb, s) ==> !bit(bb, k),
    decreases 64 - s,
{
    if s < 64 && !bit(bb, s) {
        lemma_lowest(bb, s + 1);
    }
}

}
