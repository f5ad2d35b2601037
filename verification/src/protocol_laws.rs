//! What holds of what is read: numbers, limits, options and positions.
use vstd::prelude::*;
use vstd::string::*;
use crate::bitboard::lemma_bit_update;
use crate::board::hash_s;
use crate::fen::{board_from, castling_field, ep_field, ep_ok, piece_letter};
use crate::moves::Move;
use crate::params::{feature_put, feature_value, no_limits, Features, Limits, FEATURE_COUNT};
use crate::position::{lemma_with_set, on, Placement, Position};
use crate::text::{digits, number, signed, small, unsigned};
use crate::types::{Color, PieceType};
use crate::uci::{
    hash_size_s, keys_along, limit_word, limits_upto, overhead_s, reached, u64_top, value_after,
};

verus! {

// ---------------------------------------------------------------------------
// Numbers
// ---------------------------------------------------------------------------
/// A number written out.
pub open spec fn written(n: int) -> Seq<char>
    decreases n,
{
    if n < 10 {
        seq![(n + 48) as char]
    } else {
        written(n / 10).push((n % 10 + 48) as char)
    }
}

proof fn lemma_written(n: int)
    requires
        0 <= n,
    ensures
        written(n).len() > 0,
        digits(written(n)),
        number(written(n)) == n,
    decreases n,
{
    if n < 10 {
        assert(written(n).drop_last() =~= Seq::<char>::empty());
        reveal_with_fuel(number, 2);
    } else {
        lemma_written(n / 10);
        assert(written(n).drop_last() =~= written(n / 10));
    }
}

/// A number that is written out reads back, with or without a plus sign, unless
/// it is above the limit; behind a minus sign it reads back as its opposite.
pub proof fn law_numbers_read_back(n: int, cap: int)
    requires
        0 <= n,
    ensures
        n <= cap ==> unsigned(written(n), cap) == Some(n) && unsigned(seq!['+'] + written(n), cap)
            == Some(n),
        n > cap ==> unsigned(written(n), cap) is None && unsigned(seq!['+'] + written(n), cap)
            is None,
        n <= i32::MAX ==> signed(written(n)) == Some(n),
        n <= i32::MAX + 1 ==> signed(seq!['-'] + written(n)) == Some(-n),
        n > i32::MAX + 1 ==> signed(seq!['-'] + written(n)) is None,
{
    lemma_written(n);
    let w = written(n);
    assert(crate::text::digit(w[0]));
    assert((seq!['+'] + w).skip(1) =~= w);
    assert((seq!['-'] + w).skip(1) =~= w);
}

/// What is not digits is no number, and neither is nothing.
pub proof fn law_no_number(s: Seq<char>, cap: int, i: int)
    requires
        1 <= i < s.len(),
        !crate::text::digit(s[i]),
    ensures
        unsigned(s, cap) is None,
        signed(s) is None,
        unsigned(Seq::empty(), cap) is None,
{
    if s[0] == '+' || s[0] == '-' {
        assert(s.skip(1)[i - 1] == s[i]);
    }
}

// ---------------------------------------------------------------------------
// Limits
// ---------------------------------------------------------------------------
proof fn lemma_limit_words_differ()
    ensures
        "btime"@ != "wtime"@,
        "winc"@ != "wtime"@ && "winc"@ != "btime"@,
        "binc"@ != "wtime"@ && "binc"@ != "btime"@ && "binc"@ != "winc"@,
        "movestogo"@.len() == 9,
        "movetime"@.len() == 8,
        "depth"@.len() == 5 && "depth"@[0] == 'd',
        "nodes"@.len() == 5 && "nodes"@[0] == 'n',
        "infinite"@.len() == 8 && "infinite"@[0] == 'i',
        "movetime"@[0] == 'm',
        "wtime"@.len() == 5 && "wtime"@[0] == 'w',
        "btime"@.len() == 5 && "btime"@[0] == 'b',
        "winc"@.len() == 4 && "binc"@.len() == 4,
{
    reveal_strlit("wtime");
    reveal_strlit("btime");
    reveal_strlit("winc");
    reveal_strlit("binc");
    reveal_strlit("movestogo");
    reveal_strlit("movetime");
    reveal_strlit("depth");
    reveal_strlit("nodes");
    reveal_strlit("infinite");
    assert("wtime"@[0] == 'w' && "btime"@[0] == 'b');
    assert("winc"@[0] == 'w' && "binc"@[0] == 'b');
    assert("winc"@.len() == 4 && "wtime"@.len() == 5);
    assert("binc"@.len() == 4 && "btime"@.len() == 5);
}

/// Every word of a `go` command sets the limit it names to the number behind it
/// and leaves the others alone: each side's clock is its own, and so is each
/// side's increment.
pub proof fn law_each_word_sets_its_limit(l: Limits, v: u64)
    ensures
        limit_word(l, "wtime"@, Some(v)) == (Limits { wtime: Some(v), ..l }),
        limit_word(l, "btime"@, Some(v)) == (Limits { btime: Some(v), ..l }),
        limit_word(l, "winc"@, Some(v)) == (Limits { winc: v, ..l }),
        limit_word(l, "binc"@, Some(v)) == (Limits { binc: v, ..l }),
        limit_word(l, "movestogo"@, Some(v)) == (Limits { movestogo: Some(v), ..l }),
        limit_word(l, "movetime"@, Some(v)) == (Limits { movetime: Some(v), ..l }),
        v <= u32::MAX ==> limit_word(l, "depth"@, Some(v)) == (Limits {
            depth: Some(v as u32),
            ..l
        }),
        limit_word(l, "nodes"@, Some(v)) == (Limits { nodes: Some(v), ..l }),
        limit_word(l, "infinite"@, None) == (Limits { infinite: true, ..l }),
        limit_word(l, "winc"@, None).winc == 0,
        limit_word(l, "wtime"@, None).wtime is None,
{
    lemma_limit_words_differ();
}

/// The words are taken in one by one: the last of a kind wins, the number behind
/// a word is the next word, and the command itself sets nothing.
pub proof fn law_limits_word_by_word(f: Seq<Seq<char>>, n: int, v: int)
    requires
        1 <= n < f.len(),
    ensures
        limits_upto(f, 1) == no_limits(),
        limits_upto(f, n + 1) == limit_word(limits_upto(f, n), f[n], value_after(f, n)),
        n + 1 < f.len() && f[n + 1] == written(v) && 0 <= v <= u64::MAX ==> value_after(f, n)
            == Some(v as u64),
        n + 1 == f.len() ==> value_after(f, n) is None,
{
    if 0 <= v {
        law_numbers_read_back(v, u64_top());
    }
}

// ---------------------------------------------------------------------------
// Options
// ---------------------------------------------------------------------------
/// A table size is brought into range, and an overhead to five seconds at most;
/// what is no number changes nothing.
pub proof fn law_sizes_are_held(n: int, now: u64, s: Seq<char>)
    requires
        0 <= n <= u64::MAX,
    ensures
        1 <= n <= 65536 ==> hash_size_s(written(n)) == Some(n),
        n == 0 ==> hash_size_s(written(n)) == Some(1int),
        n > 65536 ==> hash_size_s(written(n)) == Some(65536int),
        n <= 5000 ==> overhead_s(written(n), now) == n,
        n > 5000 ==> overhead_s(written(n), now) == 5000,
        unsigned(s, u64::MAX as int) is None ==> hash_size_s(s) is None && overhead_s(s, now)
            == now,
{
    law_numbers_read_back(n, u64_top());
}

/// A switch that is set reads back as it was set, and no other is touched.
#[verifier::rlimit(60)]
#[verifier::spinoff_prover]
pub proof fn law_switches_read_back(f: Features, j: int, k: int, to: bool)
    requires
        0 <= j < FEATURE_COUNT,
        0 <= k < FEATURE_COUNT,
    ensures
        feature_value(feature_put(f, j, to), k) == if k == j { to } else { feature_value(f, k) },
{
    if j == 0 {
        assert(feature_value(feature_put(f, 0, to), k) == if k == 0 { to } else { feature_value(f, k) });
    } else if j == 1 {
        assert(feature_value(feature_put(f, 1, to), k) == if k == 1 { to } else { feature_value(f, k) });
    } else if j == 2 {
        assert(feature_value(feature_put(f, 2, to), k) == if k == 2 { to } else { feature_value(f, k) });
    } else if j == 3 {
        assert(feature_value(feature_put(f, 3, to), k) == if k == 3 { to } else { feature_value(f, k) });
    } else if j == 4 {
        assert(feature_value(feature_put(f, 4, to), k) == if k == 4 { to } else { feature_value(f, k) });
    } else if j == 5 {
        assert(feature_value(feature_put(f, 5, to), k) == if k == 5 { to } else { feature_value(f, k) });
    } else if j == 6 {
        assert(feature_value(feature_put(f, 6, to), k) == if k == 6 { to } else { feature_value(f, k) });
    } else if j == 7 {
        assert(feature_value(feature_put(f, 7, to), k) == if k == 7 { to } else { feature_value(f, k) });
    } else if j == 8 {
        assert(feature_value(feature_put(f, 8, to), k) == if k == 8 { to } else { feature_value(f, k) });
    } else if j == 9 {
        assert(feature_value(feature_put(f, 9, to), k) == if k == 9 { to } else { feature_value(f, k) });
    } else if j == 10 {
        assert(feature_value(feature_put(f, 10, to), k) == if k == 10 { to } else { feature_value(f, k) });
    } else if j == 11 {
        assert(feature_value(feature_put(f, 11, to), k) == if k == 11 { to } else { feature_value(f, k) });
    } else if j == 12 {
        assert(feature_value(feature_put(f, 12, to), k) == if k == 12 { to } else { feature_value(f, k) });
    } else if j == 13 {
        assert(feature_value(feature_put(f, 13, to), k) == if k == 13 { to } else { feature_value(f, k) });
    } else if j == 14 {
        assert(feature_value(feature_put(f, 14, to), k) == if k == 14 { to } else { feature_value(f, k) });
    } else if j == 15 {
        assert(feature_value(feature_put(f, 15, to), k) == if k == 15 { to } else { feature_value(f, k) });
    } else if j == 16 {
        assert(feature_value(feature_put(f, 16, to), k) == if k == 16 { to } else { feature_value(f, k) });
    } else if j == 17 {
        assert(feature_value(feature_put(f, 17, to), k) == if k == 17 { to } else { feature_value(f, k) });
    } else if j == 18 {
        assert(feature_value(feature_put(f, 18, to), k) == if k == 18 { to } else { feature_value(f, k) });
    } else if j == 19 {
        assert(feature_value(feature_put(f, 19, to), k) == if k == 19 { to } else { feature_value(f, k) });
    }
}

// ---------------------------------------------------------------------------
// Positions
// ---------------------------------------------------------------------------
/// A small letter stands for Black's piece of the kind whose capital is White's.
pub proof fn law_letters_come_in_pairs(c: char)
    ensures
        piece_letter(c) matches Some((Color::White, pt)) ==> 'A' <= c <= 'Z' && piece_letter(
            ((c as int) + 32) as char,
        ) == Some((Color::Black, pt)),
        piece_letter(c) matches Some((Color::Black, pt)) ==> 'a' <= c <= 'z' && piece_letter(
            ((c as int) - 32) as char,
        ) == Some((Color::White, pt)),
{
}

proof fn lemma_board_keeps(
    s: Seq<char>,
    i: int,
    pl: Placement,
    rank: int,
    file: int,
    c: int,
    t: int,
    sq: int,
)
    requires
        0 <= i,
        0 <= rank < 8,
        0 <= file <= 8,
        0 <= c < 2,
        0 <= t < 6,
        0 <= sq < 64,
        on(pl, c, t, sq),
    ensures
        board_from(s, i, pl, rank, file) matches Some(q) ==> on(q, c, t, sq),
    decreases s.len() - i,
{
    if i < s.len() {
        if s[i] == '/' {
            if file == 8 && rank > 0 {
                lemma_board_keeps(s, i + 1, pl, rank - 1, 0, c, t, sq);
            }
        } else if '1' <= s[i] && s[i] <= '8' {
            let step = s[i] as int - '0' as int;
            if file + step <= 8 {
                lemma_board_keeps(s, i + 1, pl, rank, file + step, c, t, sq);
            }
        } else if let Some((d, pt)) = piece_letter(s[i]) {
            if file < 8 {
                let at = rank * 8 + file;
                let v = crate::bitboard::with_bit(pl[d.index()][pt.index()], at);
                lemma_with_set(pl, d.index(), pt.index(), v);
                lemma_bit_update(pl[d.index()][pt.index()], at, sq);
                lemma_board_keeps(
                    s,
                    i + 1,
                    crate::position::placed(pl, d.index(), pt.index(), at),
                    rank,
                    file + 1,
                    c,
                    t,
                    sq,
                );
            }
        }
    }
}

/// A letter of the piece field puts its piece where it is written, and nothing
/// read later takes it away.
pub proof fn law_letter_stands_where_it_is_written(
    s: Seq<char>,
    i: int,
    pl: Placement,
    rank: int,
    file: int,
    c: Color,
    pt: PieceType,
)
    requires
        0 <= i < s.len(),
        0 <= rank < 8,
        0 <= file < 8,
        piece_letter(s[i]) == Some((c, pt)),
    ensures
        board_from(s, i, pl, rank, file) matches Some(q) ==> on(
            q,
            c.index(),
            pt.index(),
            rank * 8 + file,
        ),
{
    let at = rank * 8 + file;
    let v = crate::bitboard::with_bit(pl[c.index()][pt.index()], at);
    lemma_with_set(pl, c.index(), pt.index(), v);
    lemma_bit_update(pl[c.index()][pt.index()], at, at);
    lemma_board_keeps(
        s,
        i + 1,
        crate::position::placed(pl, c.index(), pt.index(), at),
        rank,
        file + 1,
        c.index(),
        pt.index(),
        at,
    );
}

/// A square written as a file and a rank is that square; a dash is none; and each
/// castling right goes by its own letter.
pub proof fn law_squares_and_rights_read(s: Seq<char>)
    ensures
        ep_ok(s) && s.len() == 2 ==> (ep_field(s) matches Some(q) && q < 64 && q as int % 8
            == s[0] as int - 'a' as int && q as int / 8 == s[1] as int - '1' as int),
        ep_ok(s) && s.len() == 1 ==> ep_field(s) is None,
        castling_field(s)[0] == s.contains('K'),
        castling_field(s)[1] == s.contains('Q'),
        castling_field(s)[2] == s.contains('k'),
        castling_field(s)[3] == s.contains('q'),
{
}

/// The keys of a game are those of every position along it, from the first to
/// where it stands; one more move adds one more key.
pub proof fn law_keys_of_a_game(p: Position, moves: Seq<Move>, m: Move)
    ensures
        keys_along(p, moves).len() == moves.len() + 1,
        keys_along(p, moves)[0] == hash_s(p),
        keys_along(p, moves).last() == hash_s(reached(p, moves)),
        keys_along(p, moves.push(m)) == keys_along(p, moves).push(
            hash_s(crate::position::after(reached(p, moves), m)),
        ),
{
    assert(moves.take(0) =~= Seq::<Move>::empty());
    assert(moves.take(moves.len() as int) =~= moves);
    let more = moves.push(m);
    assert(more.drop_last() =~= moves);
    assert(more.take(more.len() as int) =~= more);
    let a = keys_along(p, more);
    let b = keys_along(p, moves).push(hash_s(crate::position::after(reached(p, moves), m)));
    assert forall|i: int| 0 <= i < a.len() implies a[i] == b[i] by {
        if i <= moves.len() {
            assert(more.take(i) =~= moves.take(i));
        }
    }
    assert(a =~= b);
}

}
