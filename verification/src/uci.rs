//! What the engine protocol's commands mean, on words that have already been
//! split.
use vstd::prelude::*;
use vstd::string::*;
use crate::board::{hash_s, start_s, Board};
use crate::fen::{fen_ok, fen_position, texts};
use crate::moves::{promo_letter, Move};
use crate::movegen::{
    differ, generate_legal, law_legal_moves_distinct, legal, lemma_legal_playable, told_apart,
};
use crate::nnue::Evaluator;
use crate::num::clamp3;
use crate::params::{
    feature_index, feature_put, no_limits, param_hi, param_index, param_lo, param_put, Limits,
    FEATURE_COUNT, PARAM_COUNT,
};
use crate::position::{after, playable, Position};
use crate::clock::{moment, moment_read};
use crate::histories::{blank_histories, Histories};
use crate::lore::{blank_lore, Lore};
use crate::node::State;
use crate::searcher::{framed, lmr_ok, Searcher};
use crate::trail::{blank_trail, latest, Trail, TrailView};
use crate::tt::{cleared, Table, TranspositionTable, TtEntry};
use crate::text::{
    alike, parse_signed, parse_unsigned, same_but_case, same_text, signed, unsigned,
};

verus! {

pub open spec fn u64_top() -> int {
    0xffff_ffff_ffff_ffff
}

// ---------------------------------------------------------------------------
// Commands
// ---------------------------------------------------------------------------
#[derive(Clone, Copy, PartialEq, Eq, Structural, Debug)]
pub enum Command {
    Uci,
    IsReady,
    SetOption,
    NewGame,
    Position,
    Go,
    Stop,
    Quit,
    Eval,
    Unknown,
}

pub open spec fn command_s(word: Seq<char>) -> Command {
    if word == "uci"@ {
        Command::Uci
    } else if word == "isready"@ {
        Command::IsReady
    } else if word == "setoption"@ {
        Command::SetOption
    } else if word == "ucinewgame"@ {
        Command::NewGame
    } else if word == "position"@ {
        Command::Position
    } else if word == "go"@ {
        Command::Go
    } else if word == "stop"@ {
        Command::Stop
    } else if word == "quit"@ {
        Command::Quit
    } else if word == "eval"@ {
        Command::Eval
    } else {
        Command::Unknown
    }
}

/// What the first word of a line asks for.
pub fn command_of(word: &str) -> (r: Command)
    ensures
        r == command_s(word@),
{
    if same_text(word, "uci") {
        Command::Uci
    } else if same_text(word, "isready") {
        Command::IsReady
    } else if same_text(word, "setoption") {
        Command::SetOption
    } else if same_text(word, "ucinewgame") {
        Command::NewGame
    } else if same_text(word, "position") {
        Command::Position
    } else if same_text(word, "go") {
        Command::Go
    } else if same_text(word, "stop") {
        Command::Stop
    } else if same_text(word, "quit") {
        Command::Quit
    } else if same_text(word, "eval") {
        Command::Eval
    } else {
        Command::Unknown
    }
}

// ---------------------------------------------------------------------------
// go
// ---------------------------------------------------------------------------
/// The number behind a word, if there is one.
pub open spec fn value_after(f: Seq<Seq<char>>, i: int) -> Option<u64> {
    if i + 1 < f.len() {
        match unsigned(f[i + 1], u64_top()) {
            Some(v) => Some(v as u64),
            None => None,
        }
    } else {
        None
    }
}

pub open spec fn or_zero(v: Option<u64>) -> u64 {
    match v {
        Some(v) => v,
        None => 0,
    }
}

/// One word of a `go` command taken in.
pub open spec fn limit_word(l: Limits, word: Seq<char>, v: Option<u64>) -> Limits {
    if word == "wtime"@ {
        Limits { wtime: v, ..l }
    } else if word == "btime"@ {
        Limits { btime: v, ..l }
    } else if word == "winc"@ {
        Limits { winc: or_zero(v), ..l }
    } else if word == "binc"@ {
        Limits { binc: or_zero(v), ..l }
    } else if word == "movestogo"@ {
        Limits { movestogo: v, ..l }
    } else if word == "movetime"@ {
        Limits { movetime: v, ..l }
    } else if word == "depth"@ {
        Limits {
            depth: match v {
                Some(v) => Some(v as u32),
                None => None,
            },
            ..l
        }
    } else if word == "nodes"@ {
        Limits { nodes: v, ..l }
    } else if word == "infinite"@ {
        Limits { infinite: true, ..l }
    } else {
        l
    }
}

/// The limits the first `n` words give; the first is the command.
pub open spec fn limits_upto(f: Seq<Seq<char>>, n: int) -> Limits
    decreases n,
{
    if n <= 1 {
        no_limits()
    } else {
        limit_word(limits_upto(f, n - 1), f[n - 1], value_after(f, n - 1))
    }
}

fn take_word(l: Limits, word: &str, v: Option<u64>) -> (r: Limits)
    ensures
        r == limit_word(l, word@, v),
{
    let mut r: Limits = l;
    if same_text(word, "wtime") {
        r.wtime = v;
    } else if same_text(word, "btime") {
        r.btime = v;
    } else if same_text(word, "winc") {
        r.winc = match v {
            Some(v) => v,
            None => 0,
        };
    } else if same_text(word, "binc") {
        r.binc = match v {
            Some(v) => v,
            None => 0,
        };
    } else if same_text(word, "movestogo") {
        r.movestogo = v;
    } else if same_text(word, "movetime") {
        r.movetime = v;
    } else if same_text(word, "depth") {
        r.depth = match v {
            Some(v) => Some(
                #[verifier::truncate]
                (v as u32),
            ),
            None => None,
        };
    } else if same_text(word, "nodes") {
        r.nodes = v;
    } else if same_text(word, "infinite") {
        r.infinite = true;
    }
    r
}

/// The limits of a `go` command. A word that is not known is passed over, a
/// number that cannot be read counts as not given, and the last of a kind wins.
pub fn parse_go(tokens: &Vec<String>) -> (r: Limits)
    ensures
        r == limits_upto(texts(tokens@), tokens@.len() as int),
{
    let n: usize = tokens.len();
    let ghost f = texts(tokens@);
    let mut l: Limits = Limits::default();
    let mut i: usize = 1;
    if n == 0 {
        return l;
    }
    while i < n
        invariant
            1 <= i <= n,
            n == tokens@.len(),
            f == texts(tokens@),
            l == limits_upto(f, i as int),
        decreases n - i,
    {
        assert(f[i as int] == tokens@[i as int]@);
        let mut v: Option<u64> = None;
        if i + 1 < n {
            assert(f[i + 1] == tokens@[i + 1]@);
            v = parse_unsigned(tokens[i + 1].as_str(), 0xffff_ffff_ffff_ffff);
        }
        assert(v == value_after(f, i as int));
        l = take_word(l, tokens[i].as_str(), v);
        i = i + 1;
    }
    l
}

// ---------------------------------------------------------------------------
// position
// ---------------------------------------------------------------------------
/// A move written out is this word.
pub open spec fn spelled(m: Move, word: Seq<char>) -> bool {
    &&& m.text().len() == word.len()
    &&& forall|i: int| 0 <= i < word.len() ==> m.text()[i] as int == #[trigger] word[i] as int
}

/// The first move of a list that is spelled like this, from `i` on.
pub open spec fn find_from(moves: Seq<Move>, word: Seq<char>, i: int) -> Option<Move>
    decreases moves.len() - i,
{
    if i >= moves.len() {
        None
    } else if spelled(moves[i], word) {
        Some(moves[i])
    } else {
        find_from(moves, word, i + 1)
    }
}

/// The moves a list of words stands for, as far as every one is legal.
pub open spec fn followed(p: Position, f: Seq<Seq<char>>, i: int) -> Seq<Move>
    decreases f.len() - i,
{
    if i >= f.len() {
        Seq::empty()
    } else {
        match find_from(legal(p), f[i], 0) {
            Some(m) => seq![m] + followed(after(p, m), f, i + 1),
            None => Seq::empty(),
        }
    }
}

/// Where a sequence of moves leads.
pub open spec fn reached(p: Position, moves: Seq<Move>) -> Position
    decreases moves.len(),
{
    if moves.len() == 0 {
        p
    } else {
        after(reached(p, moves.drop_last()), moves.last())
    }
}

proof fn lemma_spelled_once(m: Move, n: Move, word: Seq<char>)
    requires
        m.wf(),
        n.wf(),
        spelled(m, word),
        spelled(n, word),
    ensures
        !differ(m, n),
{
    assert forall|i: int| 0 <= i < word.len() implies m.text()[i] == #[trigger] n.text()[i] by {
        assert(m.text()[i] as int == word[i] as int);
    }
    assert(n.text()[0] == (97 + n.from % 8) as u8 && n.text()[1] == (49 + n.from / 8) as u8);
    assert(n.text()[2] == (97 + n.to % 8) as u8 && n.text()[3] == (49 + n.to / 8) as u8);
    assert(m.from == 8 * (m.from / 8) + m.from % 8 && n.from == 8 * (n.from / 8) + n.from % 8);
    assert(m.to == 8 * (m.to / 8) + m.to % 8 && n.to == 8 * (n.to / 8) + n.to % 8);
    if m.promotion is Some {
        assert(m.text().len() == 5);
        assert(n.promotion is Some);
        assert(n.text()[4] == promo_letter(n.promotion->0));
    }
}

proof fn lemma_found(moves: Seq<Move>, word: Seq<char>, i: int, k: int)
    requires
        0 <= i <= k < moves.len(),
        told_apart(moves),
        forall|j: int| 0 <= j < moves.len() ==> (#[trigger] moves[j]).wf(),
        spelled(moves[k], word),
    ensures
        find_from(moves, word, i) == Some(moves[k]),
    decreases k - i,
{
    if spelled(moves[i], word) {
        lemma_spelled_once(moves[i], moves[k], word);
        if i < k {
            assert(differ(moves[i], moves[k]));
        }
    } else {
        lemma_found(moves, word, i + 1, k);
    }
}

/// A legal move written out is read back as that move: the spelling tells the
/// legal moves of a position apart.
pub proof fn law_written_move_found(p: Position, m: Move, word: Seq<char>)
    requires
        legal(p).contains(m),
        spelled(m, word),
    ensures
        find_from(legal(p), word, 0) == Some(m),
{
    law_legal_moves_distinct(p);
    lemma_legal_playable(p);
    let k = choose|k: int| 0 <= k < legal(p).len() && legal(p)[k] == m;
    assert forall|j: int| 0 <= j < legal(p).len() implies (#[trigger] legal(p)[j]).wf() by {
        assert(playable(p, legal(p)[j]));
    }
    lemma_found(legal(p), word, 0, k);
}

fn is_spelled(m: &Move, word: &str) -> (r: bool)
    requires
        m.wf(),
    ensures
        r == spelled(*m, word@),
{
    let text: Vec<u8> = m.to_uci();
    let n: usize = text.len();
    if n != word.unicode_len() {
        return false;
    }
    let mut i: usize = 0;
    while i < n
        invariant
            i <= n,
            n == text@.len(),
            n == word@.len(),
            text@ == m.text(),
            forall|j: int| 0 <= j < i ==> m.text()[j] as int == #[trigger] word@[j] as int,
        decreases n - i,
    {
        if text[i] as u32 != word.get_char(i) as u32 {
            assert(m.text()[i as int] as int != word@[i as int] as int);
            return false;
        }
        i = i + 1;
    }
    true
}

/// The legal move this word stands for.
pub fn find_move(p: &Position, word: &str) -> (r: Option<Move>)
    ensures
        r == find_from(legal(*p), word@, 0),
        r matches Some(m) ==> playable(*p, m) && legal(*p).contains(m),
{
    let moves: Vec<Move> = generate_legal(p);
    proof {
        lemma_legal_playable(*p);
    }
    let mut i: usize = 0;
    while i < moves.len()
        invariant
            i <= moves@.len(),
            moves@ == legal(*p),
            forall|j: int| 0 <= j < legal(*p).len() ==> playable(*p, #[trigger] legal(*p)[j]),
            find_from(legal(*p), word@, 0) == find_from(legal(*p), word@, i as int),
        decreases moves@.len() - i,
    {
        let m: Move = moves[i];
        assert(playable(*p, legal(*p)[i as int]));
        if is_spelled(&m, word) {
            return Some(m);
        }
        i = i + 1;
    }
    None
}

/// What playing a list of words came to.
pub struct Line {
    /// The key of every position along the way, the first one included.
    pub keys: Vec<u64>,
    pub played: Vec<Move>,
    /// The word that is not a legal move, if there is one.
    pub bad: Option<usize>,
}

/// Play the moves these words stand for, from word `from` on, stopping at the
/// first that is not legal.
pub fn play_words(
    board: &mut Board,
    tokens: &Vec<String>,
    from: usize,
    ev: &mut Evaluator,
) -> (r: Line)
    requires
        old(ev).wf(),
        old(board).wf(old(ev).weights()),
        from <= tokens@.len(),
    ensures
        final(ev).wf(),
        final(ev).weights() == old(ev).weights(),
        final(board).wf(final(ev).weights()),
        final(board).acc is Some == old(board).acc is Some,
        r.played@ == followed(old(board).pos, texts(tokens@), from as int),
        final(board).pos == reached(old(board).pos, r.played@),
        r.keys@.len() == r.played@.len() + 1,
        forall|i: int|
            0 <= i <= r.played@.len() ==> #[trigger] r.keys@[i] == hash_s(
                reached(old(board).pos, r.played@.take(i)),
            ),
        forall|i: int| 0 <= i < r.played@.len() ==> (#[trigger] r.played@[i]).wf(),
        r.bad == (if from + r.played@.len() < tokens@.len() {
            Some((from + r.played@.len()) as usize)
        } else {
            None::<usize>
        }),
{
    let n: usize = tokens.len();
    let ghost f = texts(tokens@);
    let ghost p0 = board.pos;
    let mut keys: Vec<u64> = Vec::new();
    keys.push(board.hash);
    let mut played: Vec<Move> = Vec::new();
    let mut i: usize = from;
    assert(played@.take(0) =~= Seq::<Move>::empty());
    assert(played@ + followed(p0, f, from as int) =~= followed(p0, f, from as int));
    while i < n
        invariant
            from <= i <= n,
            n == tokens@.len(),
            f == texts(tokens@),
            i == from + played@.len(),
            ev.wf(),
            ev.weights() == old(ev).weights(),
            board.wf(ev.weights()),
            board.acc is Some == old(board).acc is Some,
            p0 == old(board).pos,
            board.pos == reached(p0, played@),
            followed(p0, f, from as int) == played@ + followed(board.pos, f, i as int),
            keys@.len() == played@.len() + 1,
            forall|j: int|
                0 <= j <= played@.len() ==> #[trigger] keys@[j] == hash_s(
                    reached(p0, played@.take(j)),
                ),
            forall|j: int| 0 <= j < played@.len() ==> (#[trigger] played@[j]).wf(),
        decreases n - i,
    {
        assert(f[i as int] == tokens@[i as int]@);
        match find_move(&board.pos, tokens[i].as_str()) {
            Some(mv) => {
                let ghost before = board.pos;
                let ghost was = played@;
                let _undo = board.make_move(&mv, ev);
                keys.push(board.hash);
                played.push(mv);
                proof {
                    let now = played@;
                    assert(now.drop_last() =~= was);
                    assert(now.take(now.len() as int) =~= now);
                    assert(was + (seq![mv] + followed(board.pos, f, i + 1)) =~= now + followed(
                        board.pos,
                        f,
                        i + 1,
                    ));
                    assert forall|j: int| 0 <= j <= now.len() implies #[trigger] keys@[j] == hash_s(
                        reached(p0, now.take(j)),
                    ) by {
                        if j < now.len() {
                            assert(now.take(j) =~= was.take(j));
                        }
                    }
                }
                i = i + 1;
            },
            None => {
                assert(played@ + Seq::<Move>::empty() =~= played@);
                return Line { keys, played, bad: Some(i) };
            },
        }
    }
    assert(played@ + Seq::<Move>::empty() =~= played@);
    Line { keys, played, bad: None }
}

/// The first place a word stands at, from `i` on; the length where it does not.
pub open spec fn place_from(f: Seq<Seq<char>>, word: Seq<char>, i: int) -> int
    decreases f.len() - i,
{
    if i >= f.len() || f[i] == word { i } else { place_from(f, word, i + 1) }
}

/// Where a word first stands, if it does.
pub fn word_at(tokens: &Vec<String>, word: &str) -> (r: Option<usize>)
    ensures
        ({
            let at = place_from(texts(tokens@), word@, 0);
            &&& r is Some == (at < tokens@.len())
            &&& r matches Some(i) ==> i == at && i < tokens@.len() && tokens@[i as int]@ == word@
        }),
{
    let ghost f = texts(tokens@);
    let n: usize = tokens.len();
    let mut i: usize = 0;
    while i < n
        invariant
            i <= n,
            n == tokens@.len(),
            f == texts(tokens@),
            place_from(f, word@, 0) == place_from(f, word@, i as int),
        decreases n - i,
    {
        assert(f[i as int] == tokens@[i as int]@);
        if same_text(tokens[i].as_str(), word) {
            return Some(i);
        }
        i = i + 1;
    }
    None
}

fn is_word(tokens: &Vec<String>, i: usize, word: &str) -> (r: bool)
    ensures
        r == (i < tokens@.len() && texts(tokens@)[i as int] == word@),
{
    if i >= tokens.len() {
        return false;
    }
    assert(texts(tokens@)[i as int] == tokens@[i as int]@);
    same_text(tokens[i].as_str(), word)
}

/// Where a `position` command starts from.
pub enum Start {
    /// The position there is.
    Keep,
    Startpos,
    /// The fields from the second word up to this one.
    Fen(usize),
}

/// Where a `position` command starts from, and the word after that.
pub open spec fn start_of(f: Seq<Seq<char>>) -> (Start, int) {
    if 1 < f.len() && f[1] == "startpos"@ {
        (Start::Startpos, 2)
    } else if 1 < f.len() && f[1] == "fen"@ {
        let end = place_from(f, "moves"@, 0);
        (Start::Fen(end as usize), end)
    } else {
        (Start::Keep, 1)
    }
}

/// The position a `position` command starts from, where it can be read.
pub open spec fn first_position(f: Seq<Seq<char>>, now: Position) -> Option<Position> {
    match start_of(f).0 {
        Start::Keep => Some(now),
        Start::Startpos => Some(start_s()),
        Start::Fen(end) => if fen_ok(f.subrange(2, end as int)) {
            Some(fen_position(f.subrange(2, end as int)))
        } else {
            None
        },
    }
}

/// Whether the board of a `position` command has an accumulator: one that is set
/// up has it where there is a network, one that is kept where it had it.
pub open spec fn accumulates(f: Seq<Seq<char>>, had: bool, network: bool) -> bool {
    match start_of(f).0 {
        Start::Keep => had,
        Start::Startpos => network,
        Start::Fen(end) => network,
    }
}

/// The moves of a `position` command, as far as they are legal.
pub open spec fn command_moves(f: Seq<Seq<char>>, p: Position) -> Seq<Move> {
    let i = start_of(f).1;
    if i < f.len() && f[i] == "moves"@ { followed(p, f, i + 1) } else { Seq::empty() }
}

/// The first word of a `position` command that is not a legal move, where `n`
/// of its moves are.
pub open spec fn first_bad(f: Seq<Seq<char>>, n: int) -> Option<usize> {
    let i = start_of(f).1;
    if i < f.len() && f[i] == "moves"@ && i + 1 + n < f.len() {
        Some((i + 1 + n) as usize)
    } else {
        None
    }
}

fn fields_of(tokens: &Vec<String>, from: usize, to: usize) -> (r: Vec<String>)
    requires
        from <= to <= tokens@.len(),
    ensures
        texts(r@) == texts(tokens@).subrange(from as int, to as int),
{
    let mut out: Vec<String> = Vec::new();
    let mut i: usize = from;
    while i < to
        invariant
            from <= i <= to <= tokens@.len(),
            out@.len() == i - from,
            forall|j: int| 0 <= j < out@.len() ==> (#[trigger] out@[j])@ == tokens@[from + j]@,
        decreases to - i,
    {
        out.push(tokens[i].clone());
        i = i + 1;
    }
    assert(texts(out@) =~= texts(tokens@).subrange(from as int, to as int));
    out
}

proof fn lemma_place(f: Seq<Seq<char>>, word: Seq<char>, i: int)
    requires
        0 <= i <= f.len(),
    ensures
        i <= place_from(f, word, i) <= f.len(),
        place_from(f, word, i) < f.len() ==> f[place_from(f, word, i)] == word,
        forall|j: int| i <= j < place_from(f, word, i) ==> #[trigger] f[j] != word,
    decreases f.len() - i,
{
    if i < f.len() && f[i] != word {
        lemma_place(f, word, i + 1);
    }
}

/// Carry out a `position` command. None, with nothing changed, where the fields
/// of a position cannot be read.
pub fn position_command(board: &mut Board, tokens: &Vec<String>, ev: &mut Evaluator) -> (r: Option<
    Line,
>)
    requires
        old(ev).wf(),
        old(board).wf(old(ev).weights()),
        tokens@.len() > 0,
        tokens@[0]@ == "position"@,
    ensures
        final(ev).wf(),
        final(ev).weights() == old(ev).weights(),
        final(board).wf(final(ev).weights()),
        ({
            let f = texts(tokens@);
            match first_position(f, old(board).pos) {
                None => r is None && *final(board) == *old(board),
                Some(p) => {
                    &&& r matches Some(l)
                    &&& l.played@ == command_moves(f, p)
                    &&& final(board).pos == reached(p, l.played@)
                    &&& final(board).acc is Some == accumulates(
                        f,
                        old(board).acc is Some,
                        old(ev).weights() is Some,
                    )
                    &&& l.keys@.len() == l.played@.len() + 1
                    &&& forall|i: int|
                        0 <= i <= l.played@.len() ==> #[trigger] l.keys@[i] == hash_s(
                            reached(p, l.played@.take(i)),
                        )
                    &&& forall|i: int| 0 <= i < l.played@.len() ==> (#[trigger] l.played@[i]).wf()
                    &&& l.bad == first_bad(f, l.played@.len() as int)
                },
            }
        }),
{
    let ghost f = texts(tokens@);
    let n: usize = tokens.len();
    let mut i: usize = 1;
    if is_word(tokens, 1, "startpos") {
        *board = Board::startpos(ev);
        i = 2;
    } else if is_word(tokens, 1, "fen") {
        let end: usize = match word_at(tokens, "moves") {
            Some(e) => e,
            None => n,
        };
        proof {
            lemma_place(f, "moves"@, 0);
            assert(f[0] == "position"@ && f[1] == "fen"@);
            reveal_strlit("position");
            reveal_strlit("fen");
            reveal_strlit("moves");
            assert("position"@.len() != "moves"@.len());
            assert("fen"@.len() != "moves"@.len());
            if end < 2 {
                assert(f[end as int] == "moves"@);
            }
        }
        let fields: Vec<String> = fields_of(tokens, 2, end);
        match Position::from_fen(&fields) {
            Some(p) => {
                *board = Board::new(&p, ev);
            },
            None => {
                return None;
            },
        }
        i = end;
    }
    let ghost p0 = board.pos;
    if is_word(tokens, i, "moves") {
        return Some(play_words(board, tokens, i + 1, ev));
    }
    let mut keys: Vec<u64> = Vec::new();
    keys.push(board.hash);
    let played: Vec<Move> = Vec::new();
    assert(played@.take(0) =~= Seq::<Move>::empty());
    assert(played@ =~= Seq::<Move>::empty());
    Some(Line { keys, played, bad: None })
}

// ---------------------------------------------------------------------------
// setoption
// ---------------------------------------------------------------------------
/// The words from `a` up to `b`, a space between them.
pub open spec fn joined(f: Seq<Seq<char>>, a: int, b: int) -> Seq<char>
    decreases b - a,
{
    if b <= a {
        Seq::empty()
    } else if b == a + 1 {
        f[a]
    } else {
        joined(f, a, b - 1) + " "@ + f[b - 1]
    }
}

pub fn join(tokens: &Vec<String>, a: usize, b: usize) -> (r: String)
    requires
        a <= b <= tokens@.len(),
    ensures
        r@ == joined(texts(tokens@), a as int, b as int),
{
    let ghost f = texts(tokens@);
    let mut out: String = String::new();
    let mut i: usize = a;
    while i < b
        invariant
            a <= i <= b <= tokens@.len(),
            f == texts(tokens@),
            out@ == joined(f, a as int, i as int),
        decreases b - i,
    {
        assert(f[i as int] == tokens@[i as int]@);
        if i > a {
            out.append(" ");
        }
        out.append(tokens[i].as_str());
        proof {
            if i == a {
                assert(out@ =~= f[a as int]);
            } else {
                assert(out@ =~= joined(f, a as int, i as int) + " "@ + f[i as int]);
            }
        }
        i = i + 1;
    }
    out
}

/// Where the name and the value of an option stand: the name may carry spaces,
/// so it is everything between the two keywords.
pub fn option_words(tokens: &Vec<String>) -> (r: Option<(usize, usize)>)
    ensures
        ({
            let f = texts(tokens@);
            let n = place_from(f, "name"@, 0);
            let v = place_from(f, "value"@, 0);
            &&& r is Some == (n < f.len() && v < f.len())
            &&& r matches Some((a, b)) ==> a == n && b == v && b < tokens@.len()
        }),
{
    match word_at(tokens, "name") {
        Some(n) => match word_at(tokens, "value") {
            Some(v) => Some((n, v)),
            None => None,
        },
        None => None,
    }
}

/// What an option's name, in small letters, stands for.
#[derive(Clone, Copy, PartialEq, Eq, Structural, Debug)]
pub enum OptionName {
    Hash,
    MoveOverhead,
    EvalFile,
    Other,
}

pub open spec fn option_name_s(name: Seq<char>) -> OptionName {
    if name == "hash"@ {
        OptionName::Hash
    } else if name == "move overhead"@ {
        OptionName::MoveOverhead
    } else if name == "evalfile"@ {
        OptionName::EvalFile
    } else {
        OptionName::Other
    }
}

pub fn option_name(name: &str) -> (r: OptionName)
    ensures
        r == option_name_s(name@),
{
    if same_text(name, "hash") {
        OptionName::Hash
    } else if same_text(name, "move overhead") {
        OptionName::MoveOverhead
    } else if same_text(name, "evalfile") {
        OptionName::EvalFile
    } else {
        OptionName::Other
    }
}

pub open spec fn hash_size_s(value: Seq<char>) -> Option<int> {
    match unsigned(value, u64_top()) {
        Some(v) => Some(clamp3(v, 1, 65536)),
        None => None,
    }
}

/// The table size a value asks for, in megabytes, brought into range.
pub fn hash_size(value: &str) -> (r: Option<usize>)
    ensures
        r is Some == hash_size_s(value@) is Some,
        r matches Some(mb) ==> hash_size_s(value@) == Some(mb as int) && 1 <= mb <= 65536,
{
    match parse_unsigned(value, 0xffff_ffff_ffff_ffff) {
        Some(v) => Some(
            if v < 1 {
                1
            } else if v > 65536 {
                65536
            } else {
                v as usize
            },
        ),
        None => None,
    }
}

impl Searcher {
    /// The overhead a value asks for, at most five seconds.
    pub fn set_overhead(&mut self, value: &str)
        requires
            old(self).wf(),
        ensures
            final(self).wf(),
            *final(self) == (Searcher {
                move_overhead: overhead_s(value@, old(self).move_overhead),
                ..*old(self)
            }),
    {
        match parse_unsigned(value, 0xffff_ffff_ffff_ffff) {
            Some(v) => {
                self.move_overhead = if v > 5000 {
                    5000
                } else {
                    v
                };
            },
            None => {},
        }
    }

    /// A number for a parameter, or on or off for a switch. Returns true where
    /// a parameter was set, so that what is derived from it can be rebuilt.
    pub fn set_other(&mut self, name: &str, value: &str) -> (r: bool)
        requires
            old(self).wf(),
        ensures
            final(self).wf(),
            r == (signed(value@) is Some && param_index(name@) < PARAM_COUNT),
            *final(self) == other_set(*old(self), name@, value@),
    {
        match parse_signed(value) {
            Some(n) => {
                if self.params.set(name, n) {
                    return true;
                }
            },
            None => {},
        }
        let on: bool = same_but_case(value, "true");
        self.features.set(name, on);
        false
    }

    /// Take a table of another size: what was learned and the game that was told
    /// are gone, the options and the network stay.
    pub fn resize(&mut self, hash_mb: usize, lmr: Vec<i32>)
        requires
            old(self).wf(),
            1 <= hash_mb <= 65536,
            lmr_ok(lmr@),
        ensures
            final(self).wf(),
            final(self).params == old(self).params,
            final(self).features == old(self).features,
            final(self).move_overhead == old(self).move_overhead,
            final(self).ev == old(self).ev,
            final(self).stop == old(self).stop,
            final(self).lmr@ == lmr@,
            final(self)@ == fresh_state(hash_mb as int),
            moment_read(final(self).start),
            final(self).soft == 0,
            final(self).hard == 0,
            final(self).completed == 0,
            final(self).root_keys == 0,
            !final(self).stopped,
    {
        self.tt = TranspositionTable::new(hash_mb);
        self.lmr = lmr;
        self.nodes = 0;
        self.start = moment();
        self.soft = 0;
        self.hard = 0;
        self.stopped = false;
        self.completed = 0;
        self.lore = Lore::new();
        self.trail = Trail::new();
        self.root_keys = 0;
        self.ref_hist = Histories::new(128);
        self.root_effort = Vec::new();
        self.root_scores = Vec::new();
        assert(self@ =~= fresh_state(hash_mb as int));
    }

    /// Take in an option whose name has been put into small letters. What it
    /// asks of the caller is returned.
    pub fn set_option(&mut self, name: &str, value: &str) -> (r: Change)
        requires
            old(self).wf(),
        ensures
            final(self).wf(),
            r == change_s(name@, value@),
            *final(self) == option_set(*old(self), name@, value@),
    {
        match option_name(name) {
            OptionName::Hash => match hash_size(value) {
                Some(mb) => Change::Resize(mb),
                None => Change::Nothing,
            },
            OptionName::MoveOverhead => {
                self.set_overhead(value);
                Change::Nothing
            },
            OptionName::EvalFile => Change::EvalFile,
            OptionName::Other => {
                if self.set_other(name, value) {
                    Change::Params
                } else {
                    Change::Nothing
                }
            },
        }
    }

    /// Start a new game: what was learned is forgotten, and the history is the
    /// starting position alone.
    pub fn new_game(&mut self) -> (r: Board)
        requires
            old(self).wf(),
        ensures
            final(self).wf(),
            r.wf(final(self).ev.weights()),
            game_started(*old(self), *final(self), r),
    {
        self.clear();
        let board: Board = Board::startpos(&self.ev);
        let mut keys: Vec<u64> = Vec::new();
        keys.push(board.hash);
        assert(keys@ =~= seq![hash_s(start_s())]);
        self.set_game_history(keys);
        board
    }

    fn tell_game(&mut self, keys: Vec<u64>, played: &Vec<Move>)
        requires
            old(self).wf(),
            forall|i: int| 0 <= i < played@.len() ==> (#[trigger] played@[i]).wf(),
        ensures
            final(self).wf(),
            final(self)@ == old(self)@.on_trail(
                TrailView { keys: keys@, pre_moves: latest(played@), ..old(self)@.trail },
            ),
            final(self).root_keys == keys@.len(),
            framed(&*old(self), &Searcher { root_keys: old(self).root_keys, ..*final(self) }),
            final(self).stopped == old(self).stopped,
    {
        self.set_game_history(keys);
        self.set_game_moves(played.as_slice());
    }

    /// Carry out a `position` command and tell the search about the game that
    /// led there. None, with nothing changed, where the position cannot be read;
    /// otherwise the place of the first word that is not a legal move, if one
    /// is not.
    pub fn set_position(&mut self, board: &mut Board, tokens: &Vec<String>) -> (r: Option<
        Option<usize>,
    >)
        requires
            old(self).wf(),
            old(board).wf(old(self).ev.weights()),
            tokens@.len() > 0,
            tokens@[0]@ == "position"@,
        ensures
            final(self).wf(),
            final(board).wf(final(self).ev.weights()),
            position_set(
                *old(self),
                *old(board),
                texts(tokens@),
                *final(self),
                *final(board),
            ),
            r == position_answer(texts(tokens@), old(board).pos),
    {
        match position_command(board, tokens, &mut self.ev) {
            Some(line) => {
                proof {
                    let p = first_position(texts(tokens@), old(board).pos)->0;
                    assert(line.keys@ =~= keys_along(p, line.played@));
                }
                self.tell_game(line.keys, &line.played);
                Some(line.bad)
            },
            None => None,
        }
    }
}

/// What a searcher with a table of this many megabytes starts with.
pub open spec fn fresh_state(hash_mb: int) -> State {
    State {
        tt: Table {
            slots: Seq::new((hash_mb * 16384) as nat, |i: int| None::<TtEntry>),
            age: 0,
        },
        nodes: 0,
        lore: blank_lore(),
        trail: blank_trail(),
        refs: blank_histories(128),
        effort: Seq::empty(),
        scores: Seq::empty(),
    }
}

/// A new game: what was learned is forgotten, the history is the starting
/// position alone, and that is the board.
pub open spec fn game_started(a: Searcher, b: Searcher, board: Board) -> bool {
    &&& board.pos == start_s()
    &&& board.acc is Some == a.ev.weights() is Some
    &&& b@ == (State {
        tt: cleared(a@.tt),
        lore: blank_lore(),
        refs: blank_histories(128),
        trail: TrailView { keys: seq![hash_s(start_s())], ..a@.trail },
        ..a@
    })
    &&& b.root_keys == 1
    &&& b.stopped == a.stopped
    &&& framed(&a, &Searcher { root_keys: a.root_keys, ..b })
}

/// What a `position` command comes to: the board, and the game that led there
/// told to the search; nothing where the position cannot be read.
pub open spec fn position_set(
    a: Searcher,
    before: Board,
    f: Seq<Seq<char>>,
    b: Searcher,
    board: Board,
) -> bool {
    &&& framed(&a, &Searcher { root_keys: a.root_keys, ..b })
    &&& b.stopped == a.stopped
    &&& match first_position(f, before.pos) {
        None => board == before && b@ == a@ && b.root_keys == a.root_keys,
        Some(p) => {
            let moves = command_moves(f, p);
            &&& board.pos == reached(p, moves)
            &&& board.acc is Some == accumulates(f, before.acc is Some, a.ev.weights() is Some)
            &&& b@ == a@.on_trail(
                TrailView {
                    keys: keys_along(p, moves),
                    pre_moves: latest(moves),
                    ..a@.trail
                },
            )
            &&& b.root_keys == moves.len() + 1
        },
    }
}

/// None where the position cannot be read, otherwise the place of the first
/// word that is not a legal move, if one is not.
pub open spec fn position_answer(f: Seq<Seq<char>>, now: Position) -> Option<Option<usize>> {
    match first_position(f, now) {
        None => None,
        Some(p) => Some(first_bad(f, command_moves(f, p).len() as int)),
    }
}

/// The key of every position along a sequence of moves, the first included.
pub open spec fn keys_along(p: Position, moves: Seq<Move>) -> Seq<u64> {
    Seq::new(moves.len() + 1, |i: int| hash_s(reached(p, moves.take(i))))
}

/// What an option asks of whoever took it in.
#[derive(Clone, Copy, PartialEq, Eq, Structural, Debug)]
pub enum Change {
    Nothing,
    /// A table of this many megabytes.
    Resize(usize),
    /// Whatever is derived from the parameters, rebuilt.
    Params,
    /// The value is where the network is to be found.
    EvalFile,
}

pub open spec fn change_s(name: Seq<char>, value: Seq<char>) -> Change {
    match option_name_s(name) {
        OptionName::Hash => match hash_size_s(value) {
            Some(mb) => Change::Resize(mb as usize),
            None => Change::Nothing,
        },
        OptionName::MoveOverhead => Change::Nothing,
        OptionName::EvalFile => Change::EvalFile,
        OptionName::Other => if signed(value) is Some && param_index(name) < PARAM_COUNT {
            Change::Params
        } else {
            Change::Nothing
        },
    }
}

/// The overhead in a value, at most five seconds.
pub open spec fn overhead_s(value: Seq<char>, now: u64) -> u64 {
    match unsigned(value, u64_top()) {
        Some(v) => if v > 5000 { 5000 } else { v as u64 },
        None => now,
    }
}

/// A number for a parameter, or on or off for a switch.
pub open spec fn other_set(s: Searcher, name: Seq<char>, value: Seq<char>) -> Searcher {
    let k = param_index(name);
    let j = feature_index(name);
    let number = signed(value);
    if number is Some && k < PARAM_COUNT {
        Searcher {
            params: param_put(
                s.params,
                k,
                clamp3(number->0, param_lo(k), param_hi(k)) as i32,
            ),
            ..s
        }
    } else if j < FEATURE_COUNT {
        Searcher { features: feature_put(s.features, j, alike(value, "true"@)), ..s }
    } else {
        s
    }
}

/// A searcher with an option taken in.
pub open spec fn option_set(s: Searcher, name: Seq<char>, value: Seq<char>) -> Searcher {
    match option_name_s(name) {
        OptionName::MoveOverhead => Searcher {
            move_overhead: overhead_s(value, s.move_overhead),
            ..s
        },
        OptionName::Other => other_set(s, name, value),
        _ => s,
    }
}

}
