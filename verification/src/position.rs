//! The position: where the pieces stand, and what the rules of the game say
//! about it.
use vstd::prelude::*;
use vstd::array::spec_array_update;
use crate::bitboard::{
    bit, count_below, count_ones, count_s, drop_bit, holds, lemma_bit_edges,
    lemma_bit_ops, lemma_count_positive, lemma_count_update, lemma_lowest_exists, lowest, lowest_s,
    put, with_bit, without_bit, Bitboard,
};
use crate::moves::{Move, MoveFlag};
use crate::types::{file_s, rank_s, Color, PieceType, Square};
use crate::num::{abs1, max2};

verus! {

/// One set of squares per colour and kind.
pub type Placement = [[Bitboard; 6]; 2];

pub open spec fn on(pl: Placement, c: int, t: int, s: int) -> bool {
    bit(pl[c][t], s)
}

/// The placement with one of its sets replaced.
pub open spec fn with_set(pl: Placement, c: int, t: int, v: u64) -> Placement {
    spec_array_update(pl, c, spec_array_update(pl[c], t, v))
}

/// The kind of the piece of one colour on `s`, searching from kind `t` up.
pub open spec fn kind_from(row: [Bitboard; 6], s: int, t: int) -> Option<PieceType>
    decreases 6 - t,
{
    if t >= 6 {
        None
    } else if bit(row[t], s) {
        Some(PieceType::at(t))
    } else {
        kind_from(row, s, t + 1)
    }
}

pub open spec fn kind_s(row: [Bitboard; 6], s: int) -> Option<PieceType> {
    kind_from(row, s, 0)
}

pub fn kind_at(row: &[Bitboard; 6], s: Square) -> (r: Option<PieceType>)
    requires
        s < 64,
    ensures
        r == kind_s(*row, s as int),
{
    let mut t: usize = 0;
    while t < 6
        invariant
            t <= 6,
            s < 64,
            kind_from(*row, s as int, t as int) == kind_s(*row, s as int),
        decreases 6 - t,
    {
        if holds(row[t], s) {
            return Some(PieceType::of(t));
        }
        t = t + 1;
    }
    None
}

pub proof fn lemma_kind(row: [Bitboard; 6], s: int, t: int)
    requires
        0 <= t <= 6,
    ensures
        kind_from(row, s, t) matches Some(pt) ==> t <= pt.index() < 6 && bit(
            row[pt.index()],
            s,
        ) && PieceType::at(pt.index()) == pt,
        kind_from(row, s, t) is None ==> forall|j: int| t <= j < 6 ==> !#[trigger] bit(row[j], s),
    decreases 6 - t,
{
    if t < 6 && !bit(row[t], s) {
        lemma_kind(row, s, t + 1);
    }
}

/// The union of the first `n` of the twelve sets.
pub open spec fn occ_upto(pl: Placement, n: int) -> u64
    decreases n,
{
    if n <= 0 {
        0
    } else {
        occ_upto(pl, n - 1) | pl[(n - 1) / 6][(n - 1) % 6]
    }
}

/// Every square with a piece on it.
pub open spec fn occ_s(pl: Placement) -> u64 {
    occ_upto(pl, 12)
}

pub fn occupied(pl: &Placement) -> (r: u64)
    ensures
        r == occ_s(*pl),
{
    let mut n: usize = 0;
    let mut out: u64 = 0;
    while n < 12
        invariant
            n <= 12,
            out == occ_upto(*pl, n as int),
        decreases 12 - n,
    {
        out = out | pl[n / 6][n % 6];
        n = n + 1;
    }
    out
}

/// How many pieces the first `n` of the twelve sets hold.
pub open spec fn total_upto(pl: Placement, n: int) -> int
    decreases n,
{
    if n <= 0 {
        0
    } else {
        total_upto(pl, n - 1) + count_s(pl[(n - 1) / 6][(n - 1) % 6])
    }
}

pub open spec fn total_s(pl: Placement) -> int {
    total_upto(pl, 12)
}

pub fn total(pl: &Placement) -> (r: u32)
    ensures
        r == total_s(*pl),
{
    let mut n: usize = 0;
    let mut out: u32 = 0;
    while n < 12
        invariant
            n <= 12,
            out == total_upto(*pl, n as int),
            out <= 64 * n,
        decreases 12 - n,
    {
        out = out + count_ones(pl[n / 6][n % 6]);
        n = n + 1;
    }
    out
}

pub proof fn lemma_with_set(pl: Placement, c: int, t: int, v: u64)
    requires
        0 <= c < 2,
        0 <= t < 6,
    ensures
        forall|a: int, b: int|
            0 <= a < 2 && 0 <= b < 6 ==> #[trigger] with_set(pl, c, t, v)[a][b] == (if a == c && b
                == t {
                v
            } else {
                pl[a][b]
            }),
{
}

/// Replacing one set changes the total by the difference of the two counts.
pub proof fn lemma_total_set(pl: Placement, c: int, t: int, v: u64, n: int)
    requires
        0 <= c < 2,
        0 <= t < 6,
        0 <= n <= 12,
    ensures
        total_upto(with_set(pl, c, t, v), n) == total_upto(pl, n) + if c * 6 + t < n {
            count_s(v) - count_s(pl[c][t])
        } else {
            0
        },
    decreases n,
{
    if n > 0 {
        lemma_total_set(pl, c, t, v, n - 1);
        lemma_with_set(pl, c, t, v);
    }
}

proof fn lemma_count_union(a: u64, b: u64, n: int)
    requires
        0 <= n <= 64,
    ensures
        count_below(a | b, n) <= count_below(a, n) + count_below(b, n),
    decreases n,
{
    if n > 0 {
        lemma_count_union(a, b, n - 1);
        lemma_bit_ops(a, b, n - 1);
    }
}

pub proof fn lemma_count_zero(n: int)
    requires
        0 <= n <= 64,
    ensures
        count_below(0, n) == 0,
    decreases n,
{
    if n > 0 {
        lemma_count_zero(n - 1);
        lemma_bit_ops(0, 0, n - 1);
    }
}

/// No more squares are occupied than there are pieces.
pub proof fn lemma_occ_count(pl: Placement, n: int)
    requires
        0 <= n <= 12,
    ensures
        count_s(occ_upto(pl, n)) <= total_upto(pl, n),
    decreases n,
{
    if n > 0 {
        lemma_occ_count(pl, n - 1);
        lemma_count_union(occ_upto(pl, n - 1), pl[(n - 1) / 6][(n - 1) % 6], 64);
    } else {
        lemma_count_zero(64);
    }
}

/// A piece of any set occupies its square.
pub proof fn lemma_occ_has(pl: Placement, c: int, t: int, s: int, n: int)
    requires
        0 <= c < 2,
        0 <= t < 6,
        0 <= s < 64,
        c * 6 + t < n <= 12,
        on(pl, c, t, s),
    ensures
        bit(occ_upto(pl, n), s),
    decreases n,
{
    lemma_bit_ops(occ_upto(pl, n - 1), pl[(n - 1) / 6][(n - 1) % 6], s);
    if c * 6 + t < n - 1 {
        lemma_occ_has(pl, c, t, s, n - 1);
    }
}

// ---------------------------------------------------------------------------
// Geometry
// ---------------------------------------------------------------------------
pub open spec fn sgn(x: int) -> int {
    if x > 0 {
        1
    } else if x < 0 {
        -1
    } else {
        0
    }
}

/// Nothing stands strictly between `from` and the square `n` steps on.
pub open spec fn clear_line(occ: u64, from: int, step: int, n: int) -> bool {
    forall|k: int| 1 <= k < n ==> !#[trigger] bit(occ, from + k * step)
}

pub open spec fn df_s(from: int, to: int) -> int {
    file_s(to) - file_s(from)
}

pub open spec fn dr_s(from: int, to: int) -> int {
    rank_s(to) - rank_s(from)
}

/// A slider on `from` sees `to`: along a rank or file when `straight`, along a
/// diagonal otherwise.
pub open spec fn slides(occ: u64, straight: bool, from: int, to: int) -> bool {
    let df = df_s(from, to);
    let dr = dr_s(from, to);
    &&& if straight {
        (df == 0) != (dr == 0)
    } else {
        df != 0 && abs1(df) == abs1(dr)
    }
    &&& clear_line(occ, from, 8 * sgn(dr) + sgn(df), max2(abs1(df), abs1(dr)))
}

/// A piece of this kind and colour on `from` attacks `to`.
pub open spec fn reaches(occ: u64, pt: PieceType, c: Color, from: int, to: int) -> bool {
    let df = df_s(from, to);
    let dr = dr_s(from, to);
    match pt {
        PieceType::Pawn => abs1(df) == 1 && dr == (if c == Color::White { 1int } else { -1int }),
        PieceType::Knight => (abs1(df) == 1 && abs1(dr) == 2) || (abs1(df) == 2 && abs1(dr) == 1),
        PieceType::Bishop => slides(occ, false, from, to),
        PieceType::Rook => slides(occ, true, from, to),
        PieceType::Queen => slides(occ, false, from, to) || slides(occ, true, from, to),
        PieceType::King => max2(abs1(df), abs1(dr)) == 1,
    }
}

proof fn lemma_between(from: int, step: int, n: int, k: int)
    requires
        0 <= from < 64,
        0 <= from + n * step < 64,
        0 <= k <= n,
    ensures
        0 <= from + k * step < 64,
{
    assert(step >= 0 ==> 0 <= k * step <= n * step) by (nonlinear_arith)
        requires
            0 <= k <= n,
    ;
    assert(step <= 0 ==> n * step <= k * step <= 0) by (nonlinear_arith)
        requires
            0 <= k <= n,
    ;
}

fn iabs8(x: i8) -> (r: i8)
    requires
        -8 < x < 8,
    ensures
        r == abs1(x as int),
        0 <= r < 8,
{
    if x >= 0 { x } else { -x }
}

fn isgn8(x: i8) -> (r: i8)
    ensures
        r == sgn(x as int),
{
    if x > 0 {
        1
    } else if x < 0 {
        -1
    } else {
        0
    }
}

fn deltas(from: Square, to: Square) -> (r: (i8, i8))
    requires
        from < 64,
        to < 64,
    ensures
        r.0 == df_s(from as int, to as int),
        r.1 == dr_s(from as int, to as int),
        -8 < r.0 < 8,
        -8 < r.1 < 8,
{
    ((to % 8) as i8 - (from % 8) as i8, (to / 8) as i8 - (from / 8) as i8)
}

/// So many steps along a line cover the distance between its ends.
proof fn lemma_line(df: int, dr: int, m: int, s: int)
    requires
        df == 0 || dr == 0 || abs1(df) == abs1(dr),
        m == max2(abs1(df), abs1(dr)),
        s == 8 * sgn(dr) + sgn(df),
    ensures
        m * s == 8 * dr + df,
{
    if df == 0 && dr == 0 {
        assert(m * s == 0) by (nonlinear_arith)
            requires
                m == 0,
        ;
    } else if dr > 0 && df > 0 {
        assert(m * s == 9 * m) by (nonlinear_arith)
            requires
                s == 9,
        ;
    } else if dr > 0 && df < 0 {
        assert(m * s == 7 * m) by (nonlinear_arith)
            requires
                s == 7,
        ;
    } else if dr < 0 && df > 0 {
        assert(m * s == -7 * m) by (nonlinear_arith)
            requires
                s == -7,
        ;
    } else if dr < 0 && df < 0 {
        assert(m * s == -9 * m) by (nonlinear_arith)
            requires
                s == -9,
        ;
    } else if dr > 0 {
        assert(m * s == 8 * m) by (nonlinear_arith)
            requires
                s == 8,
        ;
    } else if dr < 0 {
        assert(m * s == -8 * m) by (nonlinear_arith)
            requires
                s == -8,
        ;
    } else if df > 0 {
        assert(m * s == m) by (nonlinear_arith)
            requires
                s == 1,
        ;
    } else {
        assert(m * s == -m) by (nonlinear_arith)
            requires
                s == -1,
        ;
    }
}

fn slide_sees(occ: u64, straight: bool, from: Square, to: Square) -> (r: bool)
    requires
        from < 64,
        to < 64,
    ensures
        r == slides(occ, straight, from as int, to as int),
{
    let (df, dr) = deltas(from, to);
    let a: i8 = iabs8(df);
    let b: i8 = iabs8(dr);
    let lined: bool = if straight {
        (df == 0) != (dr == 0)
    } else {
        df != 0 && a == b
    };
    if !lined {
        return false;
    }
    let n: i8 = if a >= b { a } else { b };
    let step: i8 = 8 * isgn8(dr) + isgn8(df);
    let ghost f = from as int;
    proof {
        assert(to as int - from as int == 8 * dr + df);
        lemma_line(df as int, dr as int, n as int, step as int);
        assert(f + n * step == to);
    }
    let mut k: i8 = 1;
    let mut cur: i16 = from as i16;
    proof {
        assert(0int * step as int == 0);
    }
    while k < n
        invariant
            1 <= k <= n < 8,
            -9 <= step <= 9,
            f == from,
            from < 64,
            to < 64,
            step == 8 * sgn(dr_s(f, to as int)) + sgn(df_s(f, to as int)),
            n == max2(abs1(df_s(f, to as int)), abs1(dr_s(f, to as int))),
            f + n * step == to,
            cur == f + (k - 1) * step,
            0 <= cur < 64,
            forall|j: int| 1 <= j < k ==> !#[trigger] bit(occ, f + j * step),
        decreases n - k,
    {
        cur = cur + step as i16;
        proof {
            lemma_between(f, step as int, n as int, k as int);
            assert((k - 1) * step + step == k * step) by (nonlinear_arith);
        }
        if holds(occ, cur as u8) {
            assert(bit(occ, f + k * step));
            return false;
        }
        k = k + 1;
    }
    true
}

pub fn sees(occ: u64, pt: PieceType, c: Color, from: Square, to: Square) -> (r: bool)
    requires
        from < 64,
        to < 64,
    ensures
        r == reaches(occ, pt, c, from as int, to as int),
{
    let (df, dr) = deltas(from, to);
    let a: i8 = iabs8(df);
    let b: i8 = iabs8(dr);
    match pt {
        PieceType::Pawn => {
            let up: i8 = if c == Color::White { 1 } else { -1 };
            a == 1 && dr == up
        },
        PieceType::Knight => (a == 1 && b == 2) || (a == 2 && b == 1),
        PieceType::Bishop => slide_sees(occ, false, from, to),
        PieceType::Rook => slide_sees(occ, true, from, to),
        PieceType::Queen => slide_sees(occ, false, from, to) || slide_sees(occ, true, from, to),
        PieceType::King => (if a >= b { a } else { b }) == 1,
    }
}

/// The piece of colour `by` on `from` attacks `s`. Only pieces still among the
/// occupied squares count.
pub open spec fn attacks_from(pl: Placement, occ: u64, by: Color, from: int, s: int) -> bool {
    bit(occ, from) && (kind_s(pl[by.index()], from) matches Some(pt) && reaches(
        occ,
        pt,
        by,
        from,
        s,
    ))
}

pub open spec fn attacked(pl: Placement, occ: u64, s: int, by: Color) -> bool {
    exists|from: int| 0 <= from < 64 && #[trigger] attacks_from(pl, occ, by, from, s)
}

pub fn attack_from(pl: &Placement, occ: u64, by: Color, from: Square, s: Square) -> (r: bool)
    requires
        from < 64,
        s < 64,
    ensures
        r == attacks_from(*pl, occ, by, from as int, s as int),
{
    if !holds(occ, from) {
        return false;
    }
    match kind_at(&pl[by.idx()], from) {
        Some(pt) => sees(occ, pt, by, from, s),
        None => false,
    }
}

pub fn is_attacked(pl: &Placement, occ: u64, s: Square, by: Color) -> (r: bool)
    requires
        s < 64,
    ensures
        r == attacked(*pl, occ, s as int, by),
{
    let mut from: u8 = 0;
    while from < 64
        invariant
            from <= 64,
            s < 64,
            forall|f: int| 0 <= f < from ==> !#[trigger] attacks_from(*pl, occ, by, f, s as int),
        decreases 64 - from,
    {
        if attack_from(pl, occ, by, from, s) {
            return true;
        }
        from = from + 1;
    }
    false
}

/// The king of colour `c` stands where the other side attacks.
#[verifier::opaque]
pub open spec fn checked_s(pl: Placement, c: Color) -> bool {
    let k = lowest_s(pl[c.index()][5]);
    k < 64 && attacked(pl, occ_s(pl), k, c.other())
}

pub fn is_checked(pl: &Placement, occ: u64, c: Color) -> (r: bool)
    requires
        occ == occ_s(*pl),
    ensures
        r == checked_s(*pl, c),
{
    proof {
        reveal(checked_s);
    }
    let k: u8 = lowest(pl[c.idx()][5]);
    k < 64 && is_attacked(pl, occ, k, c.opp())
}

// ---------------------------------------------------------------------------
// The position and the moves
// ---------------------------------------------------------------------------
#[derive(Clone, Copy)]
pub struct Position {
    pub pieces: Placement,
    pub side: Color,
    /// White king side, White queen side, Black king side, Black queen side.
    pub castling: [bool; 4],
    /// The square a pawn that has just advanced two squares passed over.
    pub ep: Option<Square>,
    /// Plies since the last capture or pawn move.
    pub halfmove: u16,
    pub fullmove: u16,
}

impl Position {
    /// Both kings are on the board and no more than thirty-two pieces are.
    pub open spec fn wf(self) -> bool {
        &&& self.pieces[0][5] != 0
        &&& self.pieces[1][5] != 0
        &&& total_s(self.pieces) <= 32
        &&& self.ep matches Some(s) ==> s < 64
    }

    pub open spec fn us(self) -> int {
        self.side.index()
    }

    pub open spec fn them(self) -> int {
        self.side.other().index()
    }

    /// The side to move is in check.
    pub open spec fn in_check(self) -> bool {
        checked_s(self.pieces, self.side)
    }

    /// What stands on a square, White's pieces first.
    #[verifier::opaque]
    pub open spec fn piece_s(self, s: int) -> Option<(PieceType, Color)> {
        match kind_s(self.pieces[0], s) {
            Some(pt) => Some((pt, Color::White)),
            None => match kind_s(self.pieces[1], s) {
                Some(pt) => Some((pt, Color::Black)),
                None => None,
            },
        }
    }

    pub fn piece_at(&self, s: Square) -> (r: Option<(PieceType, Color)>)
        requires
            s < 64,
        ensures
            r == self.piece_s(s as int),
    {
        proof {
            reveal(Position::piece_s);
        }
        match kind_at(&self.pieces[0], s) {
            Some(pt) => Some((pt, Color::White)),
            None => match kind_at(&self.pieces[1], s) {
                Some(pt) => Some((pt, Color::Black)),
                None => None,
            },
        }
    }
}

/// The placement without the pieces of colour `c` on `s`, first `n` kinds.
pub open spec fn lifted_upto(pl: Placement, c: int, s: int, n: int) -> Placement
    decreases n,
{
    if n <= 0 {
        pl
    } else {
        let q = lifted_upto(pl, c, s, n - 1);
        with_set(q, c, n - 1, without_bit(q[c][n - 1], s))
    }
}

/// The placement without any piece of colour `c` on `s`.
pub open spec fn lifted(pl: Placement, c: int, s: int) -> Placement {
    lifted_upto(pl, c, s, 6)
}

pub open spec fn removed(pl: Placement, c: int, t: int, s: int) -> Placement {
    with_set(pl, c, t, without_bit(pl[c][t], s))
}

pub open spec fn placed(pl: Placement, c: int, t: int, s: int) -> Placement {
    with_set(pl, c, t, with_bit(pl[c][t], s))
}

/// Where the pawn taken in passing stands.
pub open spec fn passed_sq(mv: Move) -> int {
    (mv.from / 8) * 8 + mv.to % 8
}

/// The kind that moves.
pub open spec fn mover_s(p: Position, mv: Move) -> PieceType {
    match kind_s(p.pieces[p.us()], mv.from as int) {
        Some(pt) => pt,
        None => PieceType::Pawn,
    }
}

/// The kind that arrives.
pub open spec fn lands_s(p: Position, mv: Move) -> PieceType {
    match mv.promotion {
        Some(pt) => pt,
        None => mover_s(p, mv),
    }
}

pub open spec fn placement_after(p: Position, mv: Move) -> Placement {
    let us = p.us();
    let them = p.them();
    let a = removed(p.pieces, us, mover_s(p, mv).index(), mv.from as int);
    let b = if mv.flag == MoveFlag::EnPassant {
        removed(a, them, 0, passed_sq(mv))
    } else {
        lifted(a, them, mv.to as int)
    };
    let d = placed(b, us, lands_s(p, mv).index(), mv.to as int);
    if mv.flag == MoveFlag::KingCastle {
        placed(removed(d, us, 3, mv.from + 3), us, 3, mv.from + 1)
    } else if mv.flag == MoveFlag::QueenCastle {
        placed(removed(d, us, 3, mv.from - 4), us, 3, mv.from - 1)
    } else {
        d
    }
}

/// A right survives a move that touches neither its king nor its rook.
pub open spec fn right_kept(had: bool, king: int, rook: int, mv: Move) -> bool {
    had && mv.from != king && mv.from != rook && mv.to != king && mv.to != rook
}

pub open spec fn castling_after(r: [bool; 4], mv: Move) -> [bool; 4] {
    spec_array_update(
        spec_array_update(
            spec_array_update(
                spec_array_update(r, 0, right_kept(r[0], 4, 7, mv)),
                1,
                right_kept(r[1], 4, 0, mv),
            ),
            2,
            right_kept(r[2], 60, 63, mv),
        ),
        3,
        right_kept(r[3], 60, 56, mv),
    )
}

pub open spec fn one_more(n: u16) -> u16 {
    if n == u16::MAX { n } else { (n + 1) as u16 }
}

/// The position after a move.
#[verifier::opaque]
pub open spec fn after(p: Position, mv: Move) -> Position {
    Position {
        pieces: placement_after(p, mv),
        side: p.side.other(),
        castling: castling_after(p.castling, mv),
        ep: if mv.flag == MoveFlag::DoublePush {
            Some(((mv.from + mv.to) / 2) as u8)
        } else {
            None
        },
        halfmove: if mv.captures() || mover_s(p, mv) == PieceType::Pawn {
            0
        } else {
            one_more(p.halfmove)
        },
        fullmove: if p.side == Color::Black { one_more(p.fullmove) } else { p.fullmove },
    }
}

/// The position after a pass.
#[verifier::opaque]
pub open spec fn after_null(p: Position) -> Position {
    Position {
        side: p.side.other(),
        ep: None,
        halfmove: one_more(p.halfmove),
        fullmove: if p.side == Color::Black { one_more(p.fullmove) } else { p.fullmove },
        ..p
    }
}

/// What playing a move asks of it: a piece of ours to move, no king to take,
/// and for castling the rook where it belongs.
pub open spec fn playable(p: Position, mv: Move) -> bool {
    &&& mv.wf()
    &&& mv.from != mv.to
    &&& kind_s(p.pieces[p.us()], mv.from as int) is Some
    &&& !bit(p.pieces[p.them()][5], mv.to as int)
    &&& mv.promotion matches Some(pt) ==> mover_s(p, mv) == PieceType::Pawn
    &&& mv.flag == MoveFlag::KingCastle ==> mover_s(p, mv) == PieceType::King && mv.from + 3 < 64
        && on(p.pieces, p.us(), 3, mv.from + 3)
    &&& mv.flag == MoveFlag::QueenCastle ==> mover_s(p, mv) == PieceType::King && mv.from >= 4
        && on(p.pieces, p.us(), 3, mv.from - 4)
}

fn lift_all(pl: &mut Placement, c: usize, s: Square)
    requires
        c < 2,
        s < 64,
    ensures
        *final(pl) == lifted(*old(pl), c as int, s as int),
{
    let mut t: usize = 0;
    while t < 6
        invariant
            t <= 6,
            c < 2,
            s < 64,
            *pl == lifted_upto(*old(pl), c as int, s as int, t as int),
        decreases 6 - t,
    {
        pl[c][t] = drop_bit(pl[c][t], s);
        t = t + 1;
    }
}

fn remove_piece(pl: &mut Placement, c: usize, t: usize, s: Square)
    requires
        c < 2,
        t < 6,
        s < 64,
    ensures
        *final(pl) == removed(*old(pl), c as int, t as int, s as int),
{
    pl[c][t] = drop_bit(pl[c][t], s);
}

pub fn place_piece(pl: &mut Placement, c: usize, t: usize, s: Square)
    requires
        c < 2,
        t < 6,
        s < 64,
    ensures
        *final(pl) == placed(*old(pl), c as int, t as int, s as int),
{
    pl[c][t] = put(pl[c][t], s);
}

fn move_pieces(p: &Position, mv: &Move) -> (r: Placement)
    requires
        playable(*p, *mv),
    ensures
        r == placement_after(*p, *mv),
{
    let us: usize = p.side.idx();
    let them: usize = p.side.opp().idx();
    let mover: PieceType = match kind_at(&p.pieces[us], mv.from) {
        Some(pt) => pt,
        None => PieceType::Pawn,
    };
    let lands: PieceType = match mv.promotion {
        Some(pt) => pt,
        None => mover,
    };
    let mut pl: Placement = p.pieces;
    remove_piece(&mut pl, us, mover.idx(), mv.from);
    match mv.flag {
        MoveFlag::EnPassant => {
            remove_piece(&mut pl, them, 0, (mv.from / 8) * 8 + mv.to % 8);
        },
        _ => {
            lift_all(&mut pl, them, mv.to);
        },
    }
    place_piece(&mut pl, us, lands.idx(), mv.to);
    match mv.flag {
        MoveFlag::KingCastle => {
            remove_piece(&mut pl, us, 3, mv.from + 3);
            place_piece(&mut pl, us, 3, mv.from + 1);
        },
        MoveFlag::QueenCastle => {
            remove_piece(&mut pl, us, 3, mv.from - 4);
            place_piece(&mut pl, us, 3, mv.from - 1);
        },
        _ => {},
    }
    pl
}

fn keep_right(had: bool, king: u8, rook: u8, mv: &Move) -> (r: bool)
    ensures
        r == right_kept(had, king as int, rook as int, *mv),
{
    had && mv.from != king && mv.from != rook && mv.to != king && mv.to != rook
}

fn one_more_of(n: u16) -> (r: u16)
    ensures
        r == one_more(n),
{
    if n == u16::MAX { n } else { n + 1 }
}

impl Position {
    /// The position this move leads to.
    pub fn play(&self, mv: &Move) -> (r: Position)
        requires
            playable(*self, *mv),
        ensures
            r == after(*self, *mv),
    {
        proof {
            reveal(after);
        }
        let us: usize = self.side.idx();
        let pawn: bool = match kind_at(&self.pieces[us], mv.from) {
            Some(pt) => pt == PieceType::Pawn,
            None => true,
        };
        let old: [bool; 4] = self.castling;
        let mut castling: [bool; 4] = self.castling;
        castling[0] = keep_right(old[0], 4, 7, mv);
        castling[1] = keep_right(old[1], 4, 0, mv);
        castling[2] = keep_right(old[2], 60, 63, mv);
        castling[3] = keep_right(old[3], 60, 56, mv);
        assert(castling =~= castling_after(self.castling, *mv));
        Position {
            pieces: move_pieces(self, mv),
            side: self.side.opp(),
            castling,
            ep: if mv.flag == MoveFlag::DoublePush {
                Some((mv.from + mv.to) / 2)
            } else {
                None
            },
            halfmove: if mv.is_capture() || pawn { 0 } else { one_more_of(self.halfmove) },
            fullmove: if self.side == Color::Black {
                one_more_of(self.fullmove)
            } else {
                self.fullmove
            },
        }
    }

    /// The position a pass leads to.
    pub fn pass(&self) -> (r: Position)
        ensures
            r == after_null(*self),
    {
        proof {
            reveal(after_null);
        }
        Position {
            pieces: self.pieces,
            side: self.side.opp(),
            castling: self.castling,
            ep: None,
            halfmove: one_more_of(self.halfmove),
            fullmove: if self.side == Color::Black {
                one_more_of(self.fullmove)
            } else {
                self.fullmove
            },
        }
    }
}

proof fn lemma_removed_total(pl: Placement, c: int, t: int, s: int)
    requires
        0 <= c < 2,
        0 <= t < 6,
        0 <= s < 64,
    ensures
        total_s(removed(pl, c, t, s)) == total_s(pl) - if on(pl, c, t, s) { 1int } else { 0 },
{
    lemma_total_set(pl, c, t, without_bit(pl[c][t], s), 12);
    lemma_count_update(pl[c][t], s, 64);
}

pub proof fn lemma_placed_total(pl: Placement, c: int, t: int, s: int)
    requires
        0 <= c < 2,
        0 <= t < 6,
        0 <= s < 64,
    ensures
        total_s(placed(pl, c, t, s)) <= total_s(pl) + 1,
{
    lemma_total_set(pl, c, t, with_bit(pl[c][t], s), 12);
    lemma_count_update(pl[c][t], s, 64);
}

proof fn lemma_lifted(pl: Placement, c: int, s: int, n: int)
    requires
        0 <= c < 2,
        0 <= s < 64,
        0 <= n <= 6,
    ensures
        total_s(lifted_upto(pl, c, s, n)) <= total_s(pl),
        forall|a: int, b: int|
            0 <= a < 2 && 0 <= b < 6 ==> #[trigger] lifted_upto(pl, c, s, n)[a][b] == (if a == c
                && b < n {
                without_bit(pl[a][b], s)
            } else {
                pl[a][b]
            }),
    decreases n,
{
    if n > 0 {
        lemma_lifted(pl, c, s, n - 1);
        let q = lifted_upto(pl, c, s, n - 1);
        lemma_removed_total(q, c, n - 1, s);
        lemma_with_set(q, c, n - 1, without_bit(q[c][n - 1], s));
    }
}

/// A playable move keeps both kings on the board and adds no piece.
pub proof fn lemma_after_wf(p: Position, mv: Move)
    requires
        p.wf(),
        playable(p, mv),
    ensures
        after(p, mv).wf(),
{
    reveal(after);
    let us = p.us();
    let them = p.them();
    let mt = mover_s(p, mv).index();
    let lt = lands_s(p, mv).index();
    lemma_kind(p.pieces[us], mv.from as int, 0);
    let a = removed(p.pieces, us, mt, mv.from as int);
    lemma_removed_total(p.pieces, us, mt, mv.from as int);
    lemma_with_set(p.pieces, us, mt, without_bit(p.pieces[us][mt], mv.from as int));
    let b = if mv.flag == MoveFlag::EnPassant {
        removed(a, them, 0, passed_sq(mv))
    } else {
        lifted(a, them, mv.to as int)
    };
    if mv.flag == MoveFlag::EnPassant {
        lemma_removed_total(a, them, 0, passed_sq(mv));
        lemma_with_set(a, them, 0, without_bit(a[them][0], passed_sq(mv)));
    } else {
        lemma_lifted(a, them, mv.to as int, 6);
    }
    lemma_bit_edges(p.pieces[them][5], mv.to as int);
    assert(b[them][5] == p.pieces[them][5]);
    let d = placed(b, us, lt, mv.to as int);
    lemma_placed_total(b, us, lt, mv.to as int);
    lemma_with_set(b, us, lt, with_bit(b[us][lt], mv.to as int));
    lemma_bit_edges(b[us][lt], mv.to as int);
    assert(d[them][5] != 0);
    assert(d[us][5] != 0);
    assert(total_s(d) <= 32);
    if mv.flag == MoveFlag::KingCastle {
        lemma_removed_total(d, us, 3, mv.from + 3);
        lemma_with_set(d, us, 3, without_bit(d[us][3], mv.from + 3));
        let e = removed(d, us, 3, mv.from + 3);
        lemma_placed_total(e, us, 3, mv.from + 1);
        lemma_with_set(e, us, 3, with_bit(e[us][3], mv.from + 1));
    } else if mv.flag == MoveFlag::QueenCastle {
        lemma_removed_total(d, us, 3, mv.from - 4);
        lemma_with_set(d, us, 3, without_bit(d[us][3], mv.from - 4));
        let e = removed(d, us, 3, mv.from - 4);
        lemma_placed_total(e, us, 3, mv.from - 1);
        lemma_with_set(e, us, 3, with_bit(e[us][3], mv.from - 1));
    }
    assert(us == 0 && them == 1 || us == 1 && them == 0);
}

/// The number of occupied squares of a well-formed position picks one of the
/// four output buckets.
pub proof fn lemma_occ_bounds(p: Position)
    requires
        p.wf(),
    ensures
        1 <= count_s(occ_s(p.pieces)) <= 32,
{
    lemma_occ_count(p.pieces, 12);
    lemma_lowest_exists(p.pieces[0][5]);
    let k = lowest_s(p.pieces[0][5]);
    lemma_occ_has(p.pieces, 0, 5, k, 12);
    lemma_count_positive(occ_s(p.pieces), k, 64);
}

/// Passing moves nothing.
pub proof fn lemma_after_null(p: Position)
    ensures
        p.wf() ==> after_null(p).wf(),
        after_null(p).pieces == p.pieces,
{
    reveal(after_null);
}

}
