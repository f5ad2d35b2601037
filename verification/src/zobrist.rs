//! Position keys.
//!
//! Every key is a function of the position alone. Nothing is carried along and
//! patched, so a key cannot drift away from what it describes.
use vstd::prelude::*;
use vstd::arithmetic::div_mod::{
    lemma_mod_multiples_vanish, lemma_mul_mod_noop_left, lemma_small_mod,
};
use crate::bitboard::{bit, holds, Bitboard};
use crate::types::{Color, PieceType};

verus! {

/// A bijective scrambling of 64 bits.
pub open spec fn mix_s(x: u64) -> u64 {
    let a = x.wrapping_add(0x9e37_79b9_7f4a_7c15u64);
    let b = (a ^ (a >> 30u64)).wrapping_mul(0xbf58_476d_1ce4_e5b9u64);
    let c = (b ^ (b >> 27u64)).wrapping_mul(0x94d0_49bb_1331_11ebu64);
    c ^ (c >> 31u64)
}

/// Multiplying by a number that has an inverse loses nothing.
proof fn lemma_times(a: u64, b: u64, m: u64, inverse: u64, laps: int)
    requires
        m * inverse == 1 + laps * 0x1_0000_0000_0000_0000,
        a.wrapping_mul(m) == b.wrapping_mul(m),
    ensures
        a == b,
{
    let top = 0x1_0000_0000_0000_0000int;
    lemma_times_back(a as int, m as int, inverse as int, laps);
    lemma_times_back(b as int, m as int, inverse as int, laps);
    assert((a * m) % top == (b * m) % top);
}

proof fn lemma_times_back(x: int, m: int, inverse: int, laps: int)
    requires
        m * inverse == 1 + laps * 0x1_0000_0000_0000_0000,
        0 <= x < 0x1_0000_0000_0000_0000,
    ensures
        (((x * m) % 0x1_0000_0000_0000_0000) * inverse) % 0x1_0000_0000_0000_0000 == x,
{
    let top = 0x1_0000_0000_0000_0000int;
    lemma_mul_mod_noop_left(x * m, inverse, top);
    assert((x * m) * inverse == x + (x * laps) * top) by (nonlinear_arith)
        requires
            m * inverse == 1 + laps * top,
    ;
    lemma_mod_multiples_vanish(x * laps, x, top);
    lemma_small_mod(x as nat, top as nat);
}

/// Different words are scrambled into different words.
pub proof fn law_mix_loses_nothing(x: u64, y: u64)
    requires
        mix_s(x) == mix_s(y),
    ensures
        x == y,
{
    let a = x.wrapping_add(0x9e37_79b9_7f4a_7c15u64);
    let d = y.wrapping_add(0x9e37_79b9_7f4a_7c15u64);
    let b = (a ^ (a >> 30u64)).wrapping_mul(0xbf58_476d_1ce4_e5b9u64);
    let e = (d ^ (d >> 30u64)).wrapping_mul(0xbf58_476d_1ce4_e5b9u64);
    let c = (b ^ (b >> 27u64)).wrapping_mul(0x94d0_49bb_1331_11ebu64);
    let f = (e ^ (e >> 27u64)).wrapping_mul(0x94d0_49bb_1331_11ebu64);
    assert(c ^ (c >> 31u64) == f ^ (f >> 31u64) ==> c == f) by (bit_vector);
    lemma_times(
        b ^ (b >> 27u64),
        e ^ (e >> 27u64),
        0x94d0_49bb_1331_11ebu64,
        0x3196_42b2_d24d_8ec3u64,
        2077064247507883091,
    );
    assert(b ^ (b >> 27u64) == e ^ (e >> 27u64) ==> b == e) by (bit_vector);
    lemma_times(
        a ^ (a >> 30u64),
        d ^ (d >> 30u64),
        0xbf58_476d_1ce4_e5b9u64,
        0x96de_1b17_3f11_9089u64,
        8125545580553827436,
    );
    assert(a ^ (a >> 30u64) == d ^ (d >> 30u64) ==> a == d) by (bit_vector);
}

pub fn mix(x: u64) -> (r: u64)
    ensures
        r == mix_s(x),
{
    let a: u64 = x.wrapping_add(0x9e37_79b9_7f4a_7c15u64);
    let b: u64 = (a ^ (a >> 30u64)).wrapping_mul(0xbf58_476d_1ce4_e5b9u64);
    let c: u64 = (b ^ (b >> 27u64)).wrapping_mul(0x94d0_49bb_1331_11ebu64);
    c ^ (c >> 31u64)
}

/// The random word of one piece on one square.
pub open spec fn piece_key_s(c: int, t: int, s: int) -> u64 {
    mix_s(((c * 6 + t) * 64 + s + 1) as u64)
}

pub fn piece_key(c: usize, t: usize, s: u8) -> (r: u64)
    requires
        c < 2,
        t < 6,
        s < 64,
    ensures
        r == piece_key_s(c as int, t as int, s as int),
{
    mix(((c * 6 + t) * 64 + s as usize + 1) as u64)
}

/// `k` combined with the words of the first `n` squares of one piece set.
pub open spec fn squares_key(k: u64, bb: u64, c: int, t: int, n: int) -> u64
    decreases n,
{
    if n <= 0 {
        k
    } else {
        let before = squares_key(k, bb, c, t, n - 1);
        if bit(bb, n - 1) { before ^ piece_key_s(c, t, n - 1) } else { before }
    }
}

/// `k` combined with the words of the first `n` kinds listed, for one colour.
pub open spec fn kinds_key(
    k: u64,
    pieces: [[Bitboard; 6]; 2],
    c: int,
    types: Seq<PieceType>,
    n: int,
) -> u64
    decreases n,
{
    if n <= 0 {
        k
    } else {
        let t = types[n - 1].index();
        squares_key(kinds_key(k, pieces, c, types, n - 1), pieces[c][t], c, t, 64)
    }
}

/// `k` combined with the words of the kinds listed, for the first `n` colours
/// listed.
pub open spec fn colors_key(
    k: u64,
    pieces: [[Bitboard; 6]; 2],
    colors: Seq<Color>,
    types: Seq<PieceType>,
    n: int,
) -> u64
    decreases n,
{
    if n <= 0 {
        k
    } else {
        kinds_key(
            colors_key(k, pieces, colors, types, n - 1),
            pieces,
            colors[n - 1].index(),
            types,
            types.len() as int,
        )
    }
}

/// The key of one subset of the pieces: the exclusive or of the words of every
/// piece of the kinds and colours listed.
pub open spec fn subset_key_s(
    pieces: [[Bitboard; 6]; 2],
    colors: Seq<Color>,
    types: Seq<PieceType>,
) -> u64 {
    colors_key(0, pieces, colors, types, colors.len() as int)
}

fn add_squares(k: u64, bb: u64, c: usize, t: usize) -> (r: u64)
    requires
        c < 2,
        t < 6,
    ensures
        r == squares_key(k, bb, c as int, t as int, 64),
{
    let mut s: u8 = 0;
    let mut out: u64 = k;
    while s < 64
        invariant
            s <= 64,
            c < 2,
            t < 6,
            out == squares_key(k, bb, c as int, t as int, s as int),
        decreases 64 - s,
    {
        if holds(bb, s) {
            out = out ^ piece_key(c, t, s);
        }
        s = s + 1;
    }
    out
}

fn add_kinds(k: u64, pieces: &[[Bitboard; 6]; 2], c: usize, types: &[PieceType]) -> (r: u64)
    requires
        c < 2,
    ensures
        r == kinds_key(k, *pieces, c as int, types@, types@.len() as int),
{
    let mut n: usize = 0;
    let mut out: u64 = k;
    while n < types.len()
        invariant
            n <= types@.len(),
            c < 2,
            out == kinds_key(k, *pieces, c as int, types@, n as int),
        decreases types@.len() - n,
    {
        let t: usize = types[n].idx();
        out = add_squares(out, pieces[c][t], c, t);
        n = n + 1;
    }
    out
}

pub fn subset_key(pieces: &[[Bitboard; 6]; 2], colors: &[Color], types: &[PieceType]) -> (r: u64)
    ensures
        r == subset_key_s(*pieces, colors@, types@),
{
    let mut n: usize = 0;
    let mut out: u64 = 0;
    while n < colors.len()
        invariant
            n <= colors@.len(),
            out == colors_key(0, *pieces, colors@, types@, n as int),
        decreases colors@.len() - n,
    {
        let c: usize = colors[n].idx();
        out = add_kinds(out, pieces, c, types);
        n = n + 1;
    }
    out
}

proof fn lemma_kinds_local(
    k: u64,
    a: [[Bitboard; 6]; 2],
    b: [[Bitboard; 6]; 2],
    c: int,
    types: Seq<PieceType>,
    n: int,
)
    requires
        0 <= c < 2,
        0 <= n <= types.len(),
        forall|j: int|
            0 <= j < types.len() ==> a[c][(#[trigger] types[j]).index()]
                == b[c][types[j].index()],
    ensures
        kinds_key(k, a, c, types, n) == kinds_key(k, b, c, types, n),
    decreases n,
{
    if n > 0 {
        lemma_kinds_local(k, a, b, c, types, n - 1);
        assert(a[c][types[n - 1].index()] == b[c][types[n - 1].index()]);
    }
}

proof fn lemma_colors_local(
    a: [[Bitboard; 6]; 2],
    b: [[Bitboard; 6]; 2],
    colors: Seq<Color>,
    types: Seq<PieceType>,
    n: int,
)
    requires
        0 <= n <= colors.len(),
        forall|i: int, j: int|
            0 <= i < colors.len() && 0 <= j < types.len() ==> a[(#[trigger] colors[i]).index()][(
            #[trigger] types[j]).index()] == b[colors[i].index()][types[j].index()],
    ensures
        colors_key(0, a, colors, types, n) == colors_key(0, b, colors, types, n),
    decreases n,
{
    if n > 0 {
        lemma_colors_local(a, b, colors, types, n - 1);
        let c = colors[n - 1].index();
        assert forall|j: int| 0 <= j < types.len() implies a[c][(#[trigger] types[j]).index()]
            == b[c][types[j].index()] by {
            let i = colors[n - 1].index();
            assert(a[i][types[j].index()] == b[i][types[j].index()]);
        }
        lemma_kinds_local(
            colors_key(0, a, colors, types, n - 1),
            a,
            b,
            c,
            types,
            types.len() as int,
        );
    }
}

/// The key of a subset looks at the chosen pieces alone: two boards on which
/// they stand alike share it.
pub proof fn law_subset_key_is_local(
    a: [[Bitboard; 6]; 2],
    b: [[Bitboard; 6]; 2],
    colors: Seq<Color>,
    types: Seq<PieceType>,
)
    requires
        forall|i: int, j: int|
            0 <= i < colors.len() && 0 <= j < types.len() ==> a[(#[trigger] colors[i]).index()][(
            #[trigger] types[j]).index()] == b[colors[i].index()][types[j].index()],
    ensures
        subset_key_s(a, colors, types) == subset_key_s(b, colors, types),
{
    lemma_colors_local(a, b, colors, types, colors.len() as int);
}

}
