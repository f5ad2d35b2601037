//! Taking lines apart, comparing names and reading numbers.
use vstd::prelude::*;
use vstd::string::*;
use crate::fen::texts;

verus! {

/// An ASCII capital becomes its small letter; nothing else changes.
pub open spec fn small(c: char) -> char {
    if 'A' <= c && c <= 'Z' { ((c as int) + 32) as char } else { c }
}

fn small_of(c: char) -> (r: char)
    ensures
        r == small(c),
{
    if 'A' <= c && c <= 'Z' { (c as u8 + 32) as char } else { c }
}

/// Equal but for the case of ASCII letters.
pub open spec fn alike(a: Seq<char>, b: Seq<char>) -> bool {
    &&& a.len() == b.len()
    &&& forall|i: int| 0 <= i < a.len() ==> small(#[trigger] a[i]) == small(b[i])
}

pub fn same_text(a: &str, b: &str) -> (r: bool)
    ensures
        r == (a@ == b@),
{
    let n: usize = a.unicode_len();
    if n != b.unicode_len() {
        return false;
    }
    let mut i: usize = 0;
    while i < n
        invariant
            i <= n,
            n == a@.len(),
            n == b@.len(),
            forall|j: int| 0 <= j < i ==> a@[j] == b@[j],
        decreases n - i,
    {
        if a.get_char(i) != b.get_char(i) {
            return false;
        }
        i = i + 1;
    }
    assert(a@ =~= b@);
    true
}

pub open spec fn ascii(s: Seq<char>) -> bool {
    forall|i: int| 0 <= i < s.len() ==> (#[trigger] s[i]) as int <= 127
}

/// Every ASCII capital made small.
pub open spec fn all_small(s: Seq<char>) -> Seq<char> {
    Seq::new(s.len(), |i: int| small(s[i]))
}

/// A text in small letters, by the rules of Unicode.
pub uninterp spec fn lower_s(text: Seq<char>) -> Seq<char>;

/// `str::to_lowercase`: the result depends on the text alone, and of a text in
/// ASCII it is that text with each capital made small. Which letters beyond
/// ASCII have a small form is not stated.
#[verifier::external_body]
pub(crate) fn lowered(text: &str) -> (r: String)
    ensures
        r@ == lower_s(text@),
        ascii(text@) ==> r@ == all_small(text@),
{
    text.to_lowercase()
}

pub fn same_but_case(a: &str, b: &str) -> (r: bool)
    ensures
        r == alike(a@, b@),
{
    let n: usize = a.unicode_len();
    if n != b.unicode_len() {
        return false;
    }
    let mut i: usize = 0;
    while i < n
        invariant
            i <= n,
            n == a@.len(),
            n == b@.len(),
            forall|j: int| 0 <= j < i ==> small(#[trigger] a@[j]) == small(b@[j]),
        decreases n - i,
    {
        if small_of(a.get_char(i)) != small_of(b.get_char(i)) {
            return false;
        }
        i = i + 1;
    }
    true
}

pub open spec fn digit(c: char) -> bool {
    '0' <= c && c <= '9'
}

pub open spec fn digits(s: Seq<char>) -> bool {
    forall|i: int| 0 <= i < s.len() ==> digit(#[trigger] s[i])
}

/// What a run of digits says.
pub open spec fn number(s: Seq<char>) -> int
    decreases s.len(),
{
    if s.len() == 0 {
        0
    } else {
        10 * number(s.drop_last()) + (s.last() as int - '0' as int)
    }
}

proof fn lemma_number_grows(s: Seq<char>, n: int)
    requires
        digits(s),
        0 <= n <= s.len(),
    ensures
        0 <= number(s.take(n)) <= number(s),
    decreases s.len(),
{
    assert(s.take(s.len() as int) =~= s);
    if s.len() > 0 {
        let t = s.drop_last();
        assert forall|i: int| 0 <= i < t.len() implies digit(#[trigger] t[i]) by {
            assert(digit(s[i]));
        }
        assert(digit(s.last()));
        if n < s.len() {
            assert(t.take(n) =~= s.take(n));
            lemma_number_grows(t, n);
        } else {
            lemma_number_grows(t, 0);
        }
    }
}

/// Read a run of digits from `at` on, if it is one and fits.
fn read_digits(s: &str, at: usize, cap: u64) -> (r: Option<u64>)
    requires
        at <= s@.len(),
        cap <= 18_446_744_073_709_551_615,
    ensures
        ({
            let t = s@.skip(at as int);
            let ok = t.len() > 0 && digits(t) && number(t) <= cap;
            &&& r is Some == ok
            &&& r matches Some(v) ==> v == number(t)
        }),
{
    let n: usize = s.unicode_len();
    let ghost t = s@.skip(at as int);
    if at == n {
        return None;
    }
    let mut i: usize = at;
    let mut v: u64 = 0;
    assert(t.take(0) =~= Seq::<char>::empty());
    while i < n
        invariant
            at <= i <= n,
            n == s@.len(),
            t == s@.skip(at as int),
            forall|j: int| 0 <= j < i - at ==> digit(#[trigger] t[j]),
            v == number(t.take(i - at)),
            v <= cap,
        decreases n - i,
    {
        let c: char = s.get_char(i);
        assert(c == t[i - at]);
        if !('0' <= c && c <= '9') {
            assert(!digit(t[i - at]));
            return None;
        }
        let d: u64 = c as u64 - 48;
        let next: u128 = v as u128 * 10 + d as u128;
        proof {
            assert(t.take(i - at + 1).drop_last() =~= t.take(i - at));
            assert(number(t.take(i - at + 1)) == next);
        }
        if next > cap as u128 {
            proof {
                if digits(t) {
                    lemma_number_grows(t, i - at + 1);
                }
            }
            return None;
        }
        v = next as u64;
        i = i + 1;
    }
    assert(t.take(n - at) =~= t);
    Some(v)
}

/// What a token says as an unsigned number of at most `cap`: digits, with a
/// plus sign allowed in front.
pub open spec fn unsigned(s: Seq<char>, cap: int) -> Option<int> {
    let t = if s.len() > 0 && s[0] == '+' { s.skip(1) } else { s };
    if t.len() > 0 && digits(t) && number(t) <= cap { Some(number(t)) } else { None }
}

/// What a token says as a signed thirty-two bit number.
pub open spec fn signed(s: Seq<char>) -> Option<int> {
    if s.len() > 0 && s[0] == '-' {
        let t = s.skip(1);
        if t.len() > 0 && digits(t) && number(t) <= 2_147_483_648 { Some(-number(t)) } else { None }
    } else {
        unsigned(s, i32::MAX as int)
    }
}

pub fn parse_unsigned(s: &str, cap: u64) -> (r: Option<u64>)
    ensures
        r is Some == unsigned(s@, cap as int) is Some,
        r matches Some(v) ==> unsigned(s@, cap as int) == Some(v as int),
{
    let n: usize = s.unicode_len();
    let start: usize = if n > 0 && s.get_char(0) == '+' { 1 } else { 0 };
    assert(s@.skip(0) =~= s@);
    read_digits(s, start, cap)
}

pub fn parse_signed(s: &str) -> (r: Option<i32>)
    ensures
        r is Some == signed(s@) is Some,
        r matches Some(v) ==> signed(s@) == Some(v as int),
{
    let n: usize = s.unicode_len();
    if n > 0 && s.get_char(0) == '-' {
        match read_digits(s, 1, 2_147_483_648) {
            Some(v) => Some((-(v as i64)) as i32),
            None => None,
        }
    } else {
        match parse_unsigned(s, 2_147_483_647) {
            Some(v) => Some(v as i32),
            None => None,
        }
    }
}

// ---------------------------------------------------------------------------
// Words
// ---------------------------------------------------------------------------
/// White space, as Unicode counts it.
pub open spec fn is_space(c: char) -> bool {
    let v = c as int;
    ||| 0x09 <= v <= 0x0d
    ||| v == 0x20
    ||| v == 0x85
    ||| v == 0xa0
    ||| v == 0x1680
    ||| 0x2000 <= v <= 0x200a
    ||| v == 0x2028
    ||| v == 0x2029
    ||| v == 0x202f
    ||| v == 0x205f
    ||| v == 0x3000
}

fn space(c: char) -> (r: bool)
    ensures
        r == is_space(c),
{
    let v: u32 = c as u32;
    (0x09 <= v && v <= 0x0d) || v == 0x20 || v == 0x85 || v == 0xa0 || v == 0x1680 || (0x2000 <= v
        && v <= 0x200a) || v == 0x2028 || v == 0x2029 || v == 0x202f || v == 0x205f || v == 0x3000
}

/// Where the run of other characters that holds place `i` ends.
pub open spec fn word_end(s: Seq<char>, i: int) -> int
    decreases s.len() - i,
{
    if i < 0 || i >= s.len() || is_space(s[i]) { i } else { word_end(s, i + 1) }
}

/// The words from place `i` on.
pub open spec fn words_from(s: Seq<char>, i: int) -> Seq<Seq<char>>
    decreases s.len() - i,
{
    if i < 0 || i >= s.len() {
        Seq::empty()
    } else if is_space(s[i]) {
        words_from(s, i + 1)
    } else {
        let end = word_end(s, i + 1);
        if i < end <= s.len() {
            seq![s.subrange(i, end)] + words_from(s, end)
        } else {
            Seq::empty()
        }
    }
}

/// The words of a line: its longest runs without white space, in order.
pub open spec fn words_s(s: Seq<char>) -> Seq<Seq<char>> {
    words_from(s, 0)
}

proof fn lemma_word_end(s: Seq<char>, i: int)
    requires
        0 <= i <= s.len(),
    ensures
        i <= word_end(s, i) <= s.len(),
        forall|j: int| i <= j < word_end(s, i) ==> !is_space(#[trigger] s[j]),
        word_end(s, i) < s.len() ==> is_space(s[word_end(s, i)]),
    decreases s.len() - i,
{
    if i < s.len() && !is_space(s[i]) {
        lemma_word_end(s, i + 1);
    }
}

/// Something, and no white space in it.
pub open spec fn one_word(w: Seq<char>) -> bool {
    &&& w.len() > 0
    &&& forall|j: int| 0 <= j < w.len() ==> !is_space(#[trigger] w[j])
}

proof fn lemma_words_from(s: Seq<char>, i: int)
    requires
        0 <= i <= s.len(),
    ensures
        forall|k: int|
            0 <= k < words_from(s, i).len() ==> one_word(#[trigger] words_from(s, i)[k]),
    decreases s.len() - i,
{
    if i < s.len() {
        if is_space(s[i]) {
            lemma_words_from(s, i + 1);
            assert(words_from(s, i) == words_from(s, i + 1));
        } else {
            lemma_word_end(s, i + 1);
            let end = word_end(s, i + 1);
            lemma_words_from(s, end);
            assert forall|k: int| 0 <= k < words_from(s, i).len() implies one_word(
                #[trigger] words_from(s, i)[k],
            ) by {
                if k == 0 {
                    assert(words_from(s, i)[0] == s.subrange(i, end));
                } else {
                    assert(words_from(s, i)[k] == words_from(s, end)[k - 1]);
                }
            }
        }
    }
}

/// No word of a line is empty, and none holds white space.
pub proof fn law_words_hold_no_space(s: Seq<char>)
    ensures
        forall|k: int| 0 <= k < words_s(s).len() ==> one_word(#[trigger] words_s(s)[k]),
{
    lemma_words_from(s, 0);
}

/// A line taken apart into its words.
pub fn words_of(line: &str) -> (r: Vec<String>)
    ensures
        texts(r@) == words_s(line@),
{
    let n: usize = line.unicode_len();
    let ghost s = line@;
    let mut out: Vec<String> = Vec::new();
    let mut i: usize = 0;
    assert(texts(out@) + words_from(s, 0) =~= words_s(s));
    while i < n
        invariant
            i <= n,
            s == line@,
            n == s.len(),
            texts(out@) + words_from(s, i as int) == words_s(s),
        decreases n - i,
    {
        if space(line.get_char(i)) {
            i = i + 1;
        } else {
            let start: usize = i;
            i = i + 1;
            while i < n && !space(line.get_char(i))
                invariant
                    start < i <= n,
                    s == line@,
                    n == s.len(),
                    word_end(s, start + 1) == word_end(s, i as int),
                decreases n - i,
            {
                i = i + 1;
            }
            proof {
                lemma_word_end(s, start + 1);
            }
            assert(word_end(s, start + 1) == i);
            let ghost before = out@;
            out.push(line.substring_char(start, i).to_owned());
            proof {
                let word = s.subrange(start as int, i as int);
                assert(texts(out@) =~= texts(before) + seq![word]);
                assert(words_from(s, start as int) == seq![word] + words_from(s, i as int));
                assert(texts(before) + (seq![word] + words_from(s, i as int)) =~= texts(out@)
                    + words_from(s, i as int));
            }
        }
    }
    assert(texts(out@) + words_from(s, n as int) =~= texts(out@));
    out
}

}
