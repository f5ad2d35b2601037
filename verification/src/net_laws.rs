//! What holds of the network's score.
use vstd::prelude::*;
use crate::bitboard::count_s;
use crate::nnue::{
    bucket_s, dot, dot_of, feature_s, hidden_weights, lemma_wrap32, le16, mirror_s,
    placement_score, psqt_of, psqt_weights, score_s, sum_upto, Half, Weights,
};
use crate::num::tdiv;
use crate::position::{occ_s, Placement, Position};
use crate::score::{eval_s, king_s};
use crate::types::{Color, PieceType};

verus! {

// ---------------------------------------------------------------------------
// The output layer
// ---------------------------------------------------------------------------
/// The two networks differ in the bias of output bucket `b` alone, by `k`.
pub open spec fn biased(n: Weights, m: Weights, b: int, k: int) -> bool {
    &&& 0 <= b < 4
    &&& n.wf() && m.wf()
    &&& m.l0w == n.l0w
    &&& m.psqt == n.psqt
    &&& m.l1w == n.l1w
    &&& m.l1b[b] == n.l1b[b] + k
    &&& forall|j: int| 0 <= j < 4 && j != b ==> #[trigger] m.l1b[j] == n.l1b[j]
}

/// What the output layer adds up to before it is scaled down.
pub open spec fn output_sum(net: Weights, us: Half, them: Half, b: int) -> int {
    net.l1b[b] * 1024 + dot(us.values, net.l1w[b], 0, 512) + dot(
        them.values,
        net.l1w[b],
        512,
        512,
    )
}

/// Fits in thirty-two bits.
pub open spec fn fits(x: int) -> bool {
    -0x8000_0000 <= x <= 0x7fff_ffff
}

proof fn lemma_scaled(x: int, k: int)
    ensures
        tdiv(x, 1024) + k - 1 <= tdiv(x + k * 1024, 1024) <= tdiv(x, 1024) + k + 1,
        x >= 0 && x + k * 1024 >= 0 || x <= 0 && x + k * 1024 <= 0 ==> tdiv(x + k * 1024, 1024)
            == tdiv(x, 1024) + k,
{
}

/// A network whose output bias is higher by some amount scores higher by that
/// amount, from either side and on any accumulator, where the sum does not wrap
/// and keeps its sign; by one more or less where it changes sign. A bias counts in
/// its own bucket only.
pub proof fn law_bias_is_added(n: Weights, m: Weights, us: Half, them: Half, b: int, k: int, j: int)
    requires
        biased(n, m, b, k),
        0 <= j < 4,
    ensures
        ({
            let x = output_sum(n, us, them, b);
            let v = score_s(n, us, them, b);
            let w = score_s(m, us, them, b);
            &&& fits(x) && fits(x + k * 1024) ==> v + k - 1 <= w <= v + k + 1
            &&& fits(x) && fits(x + k * 1024) && (x >= 0 && x + k * 1024 >= 0 || x <= 0 && x + k
                * 1024 <= 0) ==> w == v + k
        }),
        j != b ==> score_s(m, us, them, j) == score_s(n, us, them, j),
{
    let x = output_sum(n, us, them, b);
    assert(output_sum(m, us, them, b) == x + k * 1024);
    lemma_wrap32(x, 0);
    lemma_wrap32(x + k * 1024, 0);
    lemma_scaled(x, k);
}

/// The same of the score of a placement.
pub proof fn law_bias_moves_a_placement(
    n: Weights,
    m: Weights,
    pl: Placement,
    stm: Color,
    our_king: int,
    their_king: int,
    b: int,
    k: int,
    j: int,
)
    requires
        biased(n, m, b, k),
        0 <= j < 4,
    ensures
        ({
            let x = n.l1b[b] * 1024 + dot_of(n, stm, our_king, pl, n.l1w[b], 0, 512) + dot_of(
                n,
                stm.other(),
                their_king,
                pl,
                n.l1w[b],
                512,
                512,
            );
            let v = placement_score(n, pl, stm, our_king, their_king, b);
            let w = placement_score(m, pl, stm, our_king, their_king, b);
            &&& fits(x) && fits(x + k * 1024) ==> v + k - 1 <= w <= v + k + 1
            &&& fits(x) && fits(x + k * 1024) && (x >= 0 && x + k * 1024 >= 0 || x <= 0 && x + k
                * 1024 <= 0) ==> w == v + k
        }),
        j != b ==> placement_score(m, pl, stm, our_king, their_king, j) == placement_score(
            n,
            pl,
            stm,
            our_king,
            their_king,
            j,
        ),
{
    let q = stm.other();
    lemma_same_net(n, m, stm, our_king, pl, n.l1w[b], 0, 512);
    lemma_same_net(n, m, q, their_king, pl, n.l1w[b], 512, 512);
    lemma_same_net(n, m, stm, our_king, pl, n.l1w[j], 0, 512);
    lemma_same_net(n, m, q, their_king, pl, n.l1w[j], 512, 512);
    lemma_same_psqt(n, m, stm, our_king, pl, b);
    lemma_same_psqt(n, m, q, their_king, pl, b);
    lemma_same_psqt(n, m, stm, our_king, pl, j);
    lemma_same_psqt(n, m, q, their_king, pl, j);
    let x = n.l1b[b] * 1024 + dot_of(n, stm, our_king, pl, n.l1w[b], 0, 512) + dot_of(
        n,
        q,
        their_king,
        pl,
        n.l1w[b],
        512,
        512,
    );
    lemma_wrap32(x, 0);
    lemma_wrap32(x + k * 1024, 0);
    lemma_scaled(x, k);
}

proof fn lemma_same_psqt(
    n: Weights,
    m: Weights,
    perspective: Color,
    king: int,
    pl: Placement,
    b: int,
)
    requires
        m.psqt == n.psqt,
    ensures
        psqt_of(m, perspective, king, pl, b) == psqt_of(n, perspective, king, pl, b),
{
    let bucket = bucket_s(perspective, king);
    let mirror = mirror_s(perspective, king);
    assert(psqt_weights(m, perspective, bucket, mirror, b) =~= psqt_weights(
        n,
        perspective,
        bucket,
        mirror,
        b,
    ));
}

proof fn lemma_same_net(
    n: Weights,
    m: Weights,
    perspective: Color,
    king: int,
    pl: Placement,
    w: [i16; 1024],
    off: int,
    i: int,
)
    requires
        m.l0w == n.l0w,
    ensures
        dot_of(m, perspective, king, pl, w, off, i) == dot_of(n, perspective, king, pl, w, off, i),
    decreases i,
{
    if i > 0 {
        lemma_same_net(n, m, perspective, king, pl, w, off, i - 1);
        let bucket = bucket_s(perspective, king);
        let mirror = mirror_s(perspective, king);
        assert(hidden_weights(m, perspective, bucket, mirror, i - 1) =~= hidden_weights(
            n,
            perspective,
            bucket,
            mirror,
            i - 1,
        ));
    }
}

/// No input reaches the hidden layer.
pub open spec fn silent(net: Weights) -> bool {
    forall|f: int, i: int| 0 <= i < 512 ==> #[trigger] net.l0w[f][i] == 0
}

/// No input has a piece-square value in output bucket `b`.
pub open spec fn flat(net: Weights, b: int) -> bool {
    forall|f: int| #[trigger] net.psqt[f][b] == 0
}

proof fn lemma_sum_of_nothing(pl: Placement, w: Seq<int>, n: int)
    requires
        forall|k: int| 0 <= k < n ==> #[trigger] w[k] == 0,
    ensures
        sum_upto(pl, w, n) == 0,
    decreases n,
{
    if n > 0 {
        lemma_sum_of_nothing(pl, w, n - 1);
    }
}

proof fn lemma_silent(
    net: Weights,
    perspective: Color,
    king: int,
    pl: Placement,
    w: [i16; 1024],
    off: int,
    n: int,
)
    requires
        silent(net),
        n <= 512,
    ensures
        dot_of(net, perspective, king, pl, w, off, n) == 0,
    decreases n,
{
    if n > 0 {
        lemma_silent(net, perspective, king, pl, w, off, n - 1);
        let bucket = bucket_s(perspective, king);
        let mirror = mirror_s(perspective, king);
        lemma_sum_of_nothing(
            pl,
            hidden_weights(net, perspective, bucket, mirror, n - 1),
            768,
        );
        assert(0 * w[off + n - 1] == 0);
    }
}

/// Where no input reaches the hidden layer the score is the piece-square terms
/// of the one side less those of the other and the bias of the bucket; where the
/// pieces have no value either, it is the bias.
pub proof fn law_bias_alone(
    net: Weights,
    pl: Placement,
    stm: Color,
    our_king: int,
    their_king: int,
    b: int,
)
    requires
        silent(net),
        0 <= b < 4,
    ensures
        placement_score(net, pl, stm, our_king, their_king, b) == net.l1b[b] + psqt_of(
            net,
            stm,
            our_king,
            pl,
            b,
        ) - psqt_of(net, stm.other(), their_king, pl, b),
        flat(net, b) ==> placement_score(net, pl, stm, our_king, their_king, b) == net.l1b[b],
{
    let q = stm.other();
    lemma_silent(net, stm, our_king, pl, net.l1w[b], 0, 512);
    lemma_silent(net, q, their_king, pl, net.l1w[b], 512, 512);
    lemma_wrap32(net.l1b[b] * 1024, 0);
    if flat(net, b) {
        lemma_sum_of_nothing(
            pl,
            psqt_weights(net, stm, bucket_s(stm, our_king), mirror_s(stm, our_king), b),
            768,
        );
        lemma_sum_of_nothing(
            pl,
            psqt_weights(net, q, bucket_s(q, their_king), mirror_s(q, their_king), b),
            768,
        );
    }
}

/// Of a position: with nothing but biases the network says the bias of the
/// bucket its pieces fall in, eight to a bucket, whoever is to move; with no
/// network, nothing.
pub proof fn law_bucket_of_a_position(net: Weights, p: Position)
    requires
        silent(net),
        forall|b: int| 0 <= b < 4 ==> #[trigger] flat(net, b),
        1 <= count_s(occ_s(p.pieces)) <= 32,
    ensures
        eval_s(None, p, false) == 0,
        eval_s(None, p, true) == 0,
        ({
            let pieces = count_s(occ_s(p.pieces));
            let v = eval_s(Some(net), p, false);
            &&& pieces <= 8 ==> v == net.l1b[0]
            &&& 8 < pieces <= 16 ==> v == net.l1b[1]
            &&& 16 < pieces <= 24 ==> v == net.l1b[2]
            &&& 24 < pieces ==> v == net.l1b[3]
        }),
{
    reveal(eval_s);
    let b = (count_s(occ_s(p.pieces)) - 1) / 8;
    assert(flat(net, b));
    law_bias_alone(
        net,
        p.pieces,
        p.side,
        king_s(p, p.side),
        king_s(p, p.side.other()),
        b,
    );
}

/// What is good for one side is bad for the other: with a silent hidden layer
/// and no bias the score changes its sign with the side to move.
pub proof fn law_pieces_count_for_their_side(
    net: Weights,
    pl: Placement,
    stm: Color,
    our_king: int,
    their_king: int,
    b: int,
)
    requires
        silent(net),
        0 <= b < 4,
    ensures
        placement_score(net, pl, stm, our_king, their_king, b) + placement_score(
            net,
            pl,
            stm.other(),
            their_king,
            our_king,
            b,
        ) == 2 * net.l1b[b],
{
    law_bias_alone(net, pl, stm, our_king, their_king, b);
    law_bias_alone(net, pl, stm.other(), their_king, our_king, b);
}

/// A piece-square term of the side to move is added, and one of the other side
/// taken off, each as it stands.
pub proof fn law_piece_square_terms(
    net: Weights,
    us: Half,
    them: Half,
    ours: Half,
    theirs: Half,
    b: int,
)
    requires
        us.values == ours.values,
        them.values == theirs.values,
        0 <= b < 4,
    ensures
        score_s(net, ours, theirs, b) - score_s(net, us, them, b) == (ours.psqt[b] - us.psqt[b])
            - (theirs.psqt[b] - them.psqt[b]),
{
}

// ---------------------------------------------------------------------------
// The hidden layer
// ---------------------------------------------------------------------------
/// Both units say the same: nothing at or below zero, no more than full above.
pub open spec fn alike(a: i16, b: i16) -> bool {
    a == b || a <= 0 && b <= 0 || a >= 1024 && b >= 1024
}

proof fn lemma_alike(a: [i16; 512], b: [i16; 512], w: [i16; 1024], off: int, n: int)
    requires
        n <= 512,
        forall|i: int| 0 <= i < n ==> alike(#[trigger] a[i], b[i]),
    ensures
        dot(a, w, off, n) == dot(b, w, off, n),
    decreases n,
{
    if n > 0 {
        lemma_alike(a, b, w, off, n - 1);
        assert(alike(a[n - 1], b[n - 1]));
    }
}

/// The hidden units are clipped: below zero is nothing, above full is full.
pub proof fn law_units_are_clipped(
    net: Weights,
    us: Half,
    them: Half,
    ours: Half,
    theirs: Half,
    b: int,
)
    requires
        us.psqt == ours.psqt,
        them.psqt == theirs.psqt,
        forall|i: int| 0 <= i < 512 ==> alike(#[trigger] us.values[i], ours.values[i]),
        forall|i: int| 0 <= i < 512 ==> alike(#[trigger] them.values[i], theirs.values[i]),
    ensures
        score_s(net, us, them, b) == score_s(net, ours, theirs, b),
{
    lemma_alike(us.values, ours.values, net.l1w[b], 0, 512);
    lemma_alike(them.values, theirs.values, net.l1w[b], 512, 512);
}

/// Of the units, `u` alone is above zero.
pub open spec fn speaks_alone(values: [i16; 512], u: int) -> bool {
    forall|i: int| 0 <= i < 512 && i != u ==> #[trigger] values[i] <= 0
}

proof fn lemma_speaks_alone(values: [i16; 512], w: [i16; 1024], off: int, u: int, n: int)
    requires
        speaks_alone(values, u),
        n <= 512,
        0 <= u < 512 ==> 0 <= values[u] <= 1024,
    ensures
        dot(values, w, off, n) == if 0 <= u < n { values[u] * w[off + u] } else { 0 },
    decreases n,
{
    if n > 0 {
        lemma_speaks_alone(values, w, off, u, n - 1);
        if n - 1 != u {
            assert(values[n - 1] <= 0);
            assert(0 * w[off + n - 1] == 0);
        }
    }
}

/// One unit of the side to move alone counts with its weight in the first half
/// of the output layer; one of the other side with its weight in the second.
pub proof fn law_one_unit_speaks(net: Weights, us: Half, them: Half, b: int, u: int)
    requires
        0 <= b < 4,
        0 <= u < 512,
    ensures
        ({
            let pieces = us.psqt[b] - them.psqt[b];
            let v = score_s(net, us, them, b);
            &&& speaks_alone(us.values, u) && 0 <= us.values[u] <= 1024 && speaks_alone(
                them.values,
                -1,
            ) ==> v == pieces + tdiv(net.l1b[b] * 1024 + us.values[u] * net.l1w[b][u], 1024)
            &&& speaks_alone(them.values, u) && 0 <= them.values[u] <= 1024 && speaks_alone(
                us.values,
                -1,
            ) ==> v == pieces + tdiv(net.l1b[b] * 1024 + them.values[u] * net.l1w[b][512 + u], 1024)
        }),
{
    let w = net.l1w[b];
    if speaks_alone(us.values, u) && 0 <= us.values[u] <= 1024 && speaks_alone(them.values, -1) {
        lemma_speaks_alone(us.values, w, 0, u, 512);
        lemma_speaks_alone(them.values, w, 512, -1, 512);
        let x = us.values[u] as int;
        let y = w[u] as int;
        assert(-33_554_432 <= x * y <= 33_554_432) by (nonlinear_arith)
            requires
                0 <= x <= 1024,
                -32768 <= y <= 32767,
        ;
        lemma_wrap32(net.l1b[b] * 1024 + x * y, 0);
    }
    if speaks_alone(them.values, u) && 0 <= them.values[u] <= 1024 && speaks_alone(us.values, -1) {
        lemma_speaks_alone(us.values, w, 0, -1, 512);
        lemma_speaks_alone(them.values, w, 512, u, 512);
        let x = them.values[u] as int;
        let y = w[512 + u] as int;
        assert(-33_554_432 <= x * y <= 33_554_432) by (nonlinear_arith)
            requires
                0 <= x <= 1024,
                -32768 <= y <= 32767,
        ;
        lemma_wrap32(net.l1b[b] * 1024 + x * y, 0);
    }
}

proof fn lemma_dot_grows(a: [i16; 512], b: [i16; 512], w: [i16; 1024], off: int, n: int)
    requires
        0 <= off <= 512,
        n <= 512,
        forall|i: int| 0 <= i < n ==> #[trigger] a[i] <= b[i],
        forall|i: int| off <= i < off + n ==> #[trigger] w[i] >= 0,
    ensures
        dot(a, w, off, n) <= dot(b, w, off, n),
    decreases n,
{
    if n > 0 {
        lemma_dot_grows(a, b, w, off, n - 1);
        assert(a[n - 1] <= b[n - 1]);
        assert(w[off + n - 1] >= 0);
        let x = crate::num::clamp3(a[n - 1] as int, 0, 1024);
        let y = crate::num::clamp3(b[n - 1] as int, 0, 1024);
        let z = w[off + n - 1] as int;
        assert(x * z <= y * z) by (nonlinear_arith)
            requires
                x <= y,
                z >= 0,
        ;
    }
}

/// Where every output weight of the side to move is at least zero, more in its
/// hidden units never makes less of its score.
pub proof fn law_units_lift_the_score(net: Weights, us: Half, more: Half, them: Half, b: int)
    requires
        0 <= b < 4,
        us.psqt == more.psqt,
        forall|i: int| 0 <= i < 512 ==> #[trigger] us.values[i] <= more.values[i],
        forall|i: int| 0 <= i < 512 ==> #[trigger] net.l1w[b][i] >= 0,
        fits(output_sum(net, us, them, b)),
        fits(output_sum(net, more, them, b)),
    ensures
        score_s(net, us, them, b) <= score_s(net, more, them, b),
{
    lemma_dot_grows(us.values, more.values, net.l1w[b], 0, 512);
    lemma_wrap32(output_sum(net, us, them, b), 0);
    lemma_wrap32(output_sum(net, more, them, b), 0);
}

// ---------------------------------------------------------------------------
// The inputs
// ---------------------------------------------------------------------------
/// An input's number tells what it stands for: the king bucket, whether the
/// piece is one's own, its kind, its rank counted from one's own side, and its
/// file, counted from the other side of the board where it is mirrored.
pub proof fn law_input_tells_its_piece(
    perspective: Color,
    bucket: int,
    mirror: bool,
    color: Color,
    pt: PieceType,
    s: int,
)
    requires
        0 <= bucket < 32,
        0 <= s < 64,
    ensures
        ({
            let f = feature_s(perspective, bucket, mirror, color, pt, s);
            &&& f / 768 == bucket
            &&& (f % 768 < 384 <==> color == perspective)
            &&& (f % 384) / 64 == pt.index()
            &&& (f % 64) / 8 == if perspective == Color::White { s / 8 } else { 7 - s / 8 }
            &&& f % 8 == if mirror { 7 - s % 8 } else { s % 8 }
        }),
{
    let rank = if perspective == Color::White { s / 8 } else { 7 - s / 8 };
    let file = if mirror { 7 - s % 8 } else { s % 8 };
    let a = crate::nnue::own_view(perspective, s);
    assert(a / 8 == rank && a % 8 == s % 8);
    assert(feature_s(perspective, bucket, mirror, color, pt, s) == file + 8 * rank + 64 * pt.index()
        + 384 * (if color == perspective { 0int } else { 1int }) + 768 * bucket);
    lemma_digits(
        file,
        rank,
        pt.index(),
        if color == perspective { 0 } else { 1 },
        bucket,
    );
}

proof fn lemma_digits(file: int, rank: int, kind: int, side: int, bucket: int)
    requires
        0 <= file < 8,
        0 <= rank < 8,
        0 <= kind < 6,
        0 <= side < 2,
        0 <= bucket,
    ensures
        ({
            let f = file + 8 * rank + 64 * kind + 384 * side + 768 * bucket;
            &&& f / 768 == bucket
            &&& f % 768 == file + 8 * rank + 64 * kind + 384 * side
            &&& (f % 384) / 64 == kind
            &&& (f % 64) / 8 == rank
            &&& f % 8 == file
        }),
{
    let f = file + 8 * rank + 64 * kind + 384 * side + 768 * bucket;
    assert(f % 384 == file + 8 * rank + 64 * kind) by {
        assert(f == file + 8 * rank + 64 * kind + 384 * (side + 2 * bucket));
    }
    assert(f % 64 == file + 8 * rank) by {
        assert(f == file + 8 * rank + 64 * (kind + 6 * side + 12 * bucket));
    }
    assert(f % 8 == file) by {
        assert(f == file + 8 * (rank + 8 * kind + 48 * side + 96 * bucket));
    }
}

/// The king's bucket goes by its rank, counted from its own side, and by how far
/// it stands from the nearer edge file; the board is mirrored where that is the
/// king side edge.
pub proof fn law_king_bucket(perspective: Color, king: int)
    requires
        0 <= king < 64,
    ensures
        ({
            let rank = if perspective == Color::White { king / 8 } else { 7 - king / 8 };
            let file = king % 8;
            &&& bucket_s(perspective, king) / 4 == rank
            &&& bucket_s(perspective, king) % 4 == if file < 4 { file } else { 7 - file }
            &&& mirror_s(perspective, king) <==> file > 3
        }),
{
}

// ---------------------------------------------------------------------------
// The file
// ---------------------------------------------------------------------------
/// A sixteen bit number written low byte first reads back.
pub proof fn law_number_reads_back(bytes: Seq<u8>, at: int, v: int)
    requires
        -32768 <= v < 32768,
        bytes[at] == v % 256,
        bytes[at + 1] == (v / 256) % 256,
    ensures
        le16(bytes, at) == v,
{
}

}
