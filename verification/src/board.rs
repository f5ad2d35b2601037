//! The board: a position together with what is derived from it.
use vstd::prelude::*;
use crate::bitboard::{lemma_bit_edges, lemma_lowest_exists, lowest, lowest_s, with_bit};
use crate::moves::Move;
use crate::nnue::{law_accumulator_unique, Accumulator, Evaluator, Weights};
use crate::position::{
    after, after_null, is_checked, lemma_after_null, lemma_after_wf, lemma_count_zero,
    lemma_placed_total, lemma_with_set, occ_s, occupied, place_piece, placed, playable, total_s,
    total_upto, Placement, Position,
};
use crate::types::{Color, PieceType, Square};
use crate::zobrist::{law_mix_loses_nothing, mix, mix_s, subset_key, subset_key_s};

verus! {

/// Everything about a position but its pieces, packed in one word.
pub open spec fn state_word(p: Position) -> int {
    p.us() + (if p.castling[0] { 2int } else { 0 }) + (if p.castling[1] { 4int } else { 0 }) + (
    if p.castling[2] { 8int } else { 0 }) + (if p.castling[3] { 16int } else { 0 }) + (match p.ep {
        Some(s) => 32 * (s + 1),
        None => 0,
    })
}

pub open spec fn both_colors() -> Seq<Color> {
    seq![Color::White, Color::Black]
}

pub open spec fn all_kinds() -> Seq<PieceType> {
    seq![
        PieceType::Pawn,
        PieceType::Knight,
        PieceType::Bishop,
        PieceType::Rook,
        PieceType::Queen,
        PieceType::King,
    ]
}

/// The key of a position: its pieces, the side to move, the castling rights and
/// the square a pawn may be taken on in passing.
#[verifier::opaque]
pub open spec fn hash_s(p: Position) -> u64 {
    subset_key_s(p.pieces, both_colors(), all_kinds()) ^ mix_s((0x5_0000 + state_word(p)) as u64)
}

pub fn position_key(p: &Position) -> (r: u64)
    ensures
        r == hash_s(*p),
{
    proof {
        reveal(hash_s);
    }
    let colors: [Color; 2] = [Color::White, Color::Black];
    let kinds: [PieceType; 6] = [
        PieceType::Pawn,
        PieceType::Knight,
        PieceType::Bishop,
        PieceType::Rook,
        PieceType::Queen,
        PieceType::King,
    ];
    let pieces: u64 = subset_key(&p.pieces, &colors, &kinds);
    assert(colors@ =~= both_colors());
    assert(kinds@ =~= all_kinds());
    let mut word: u64 = 0x5_0000 + p.side.idx() as u64;
    if p.castling[0] {
        word = word + 2;
    }
    if p.castling[1] {
        word = word + 4;
    }
    if p.castling[2] {
        word = word + 8;
    }
    if p.castling[3] {
        word = word + 16;
    }
    match p.ep {
        Some(s) => {
            word = word + 32 * (s as u64 + 1);
        },
        None => {},
    }
    pieces ^ mix(word)
}

/// Where the kings stand, White's first.
fn king_squares(p: &Position) -> (r: [Square; 2])
    requires
        p.wf(),
    ensures
        r[0] == lowest_s(p.pieces[0][5]),
        r[1] == lowest_s(p.pieces[1][5]),
        r[0] < 64,
        r[1] < 64,
{
    proof {
        lemma_lowest_exists(p.pieces[0][5]);
        lemma_lowest_exists(p.pieces[1][5]);
    }
    [lowest(p.pieces[0][5]), lowest(p.pieces[1][5])]
}

#[derive(Clone, Copy)]
pub struct Board {
    pub pos: Position,
    pub hash: u64,
    pub occ_all: u64,
    pub acc: Option<Accumulator>,
}

/// What a move has to give back.
#[derive(Clone, Copy)]
pub struct Undo {
    pub before: Board,
}

impl Board {
    /// The derived parts describe the position, and the accumulator, where
    /// there is one, is the network's reading of it.
    pub open spec fn wf(self, net: Option<Weights>) -> bool {
        &&& self.pos.wf()
        &&& self.hash == hash_s(self.pos)
        &&& self.occ_all == occ_s(self.pos.pieces)
        &&& self.acc matches Some(a) ==> {
            &&& net matches Some(w)
            &&& a.holds(w, self.pos.pieces)
            &&& a.seated(lowest_s(self.pos.pieces[0][5]), lowest_s(self.pos.pieces[1][5]))
        }
    }

    /// The weights this board is read with: none where it has no accumulator.
    pub open spec fn reader(self, net: Option<Weights>) -> Option<Weights> {
        if self.acc is Some { net } else { None }
    }

    /// The board of a position, with an accumulator if there is a network.
    pub fn new(pos: &Position, ev: &Evaluator) -> (r: Board)
        requires
            pos.wf(),
            ev.wf(),
        ensures
            r.wf(ev.weights()),
            r.pos == *pos,
            r.acc is Some == ev.weights() is Some,
    {
        let acc: Option<Accumulator> = match &ev.network {
            Some(net) => Some(Accumulator::fresh(net, &pos.pieces, king_squares(pos))),
            None => None,
        };
        Board { pos: *pos, hash: position_key(pos), occ_all: occupied(&pos.pieces), acc }
    }

    /// The position every game starts from.
    pub fn startpos(ev: &Evaluator) -> (r: Board)
        requires
            ev.wf(),
        ensures
            r.wf(ev.weights()),
            r.pos == start_s(),
            r.acc is Some == ev.weights() is Some,
    {
        let pos: Position = start();
        Board::new(&pos, ev)
    }

    pub fn in_check(&self) -> (r: bool)
        requires
            self.occ_all == occ_s(self.pos.pieces),
        ensures
            r == self.pos.in_check(),
    {
        is_checked(&self.pos.pieces, self.occ_all, self.pos.side)
    }

    /// Play a move, carrying the accumulator along.
    pub fn make_move(&mut self, mv: &Move, ev: &mut Evaluator) -> (r: Undo)
        requires
            old(ev).wf(),
            old(self).wf(old(ev).weights()),
            playable(old(self).pos, *mv),
        ensures
            final(ev).wf(),
            final(ev).weights() == old(ev).weights(),
            final(self).wf(old(ev).weights()),
            final(self).pos == after(old(self).pos, *mv),
            final(self).acc is Some == old(self).acc is Some,
            r.before == *old(self),
    {
        let before: Board = *self;
        let pos: Position = self.pos.play(mv);
        proof {
            lemma_after_wf(before.pos, *mv);
        }
        let kings: [Square; 2] = king_squares(&pos);
        let mut acc: Option<Accumulator> = None;
        match before.acc {
            Some(a) => {
                match &ev.network {
                    Some(net) => {
                        let mut a: Accumulator = a;
                        a.follow(net, &before.pos.pieces, &pos.pieces);
                        a.refresh(net, &pos.pieces, kings, &mut ev.cache);
                        acc = Some(a);
                    },
                    None => {},
                }
            },
            None => {},
        }
        self.hash = position_key(&pos);
        self.occ_all = occupied(&pos.pieces);
        self.pos = pos;
        self.acc = acc;
        Undo { before }
    }

    /// Take a move back: the board is exactly what it was.
    pub fn unmake_move(&mut self, mv: &Move, undo: &Undo)
        ensures
            *final(self) == undo.before,
    {
        *self = undo.before;
    }

    /// Hand the turn over without moving anything.
    pub fn make_null_move(&mut self) -> (r: Undo)
        ensures
            forall|net: Option<Weights>| old(self).wf(net) ==> #[trigger] final(self).wf(net),
            final(self).pos == after_null(old(self).pos),
            final(self).acc is Some == old(self).acc is Some,
            r.before == *old(self),
    {
        let before: Board = *self;
        proof {
            lemma_after_null(before.pos);
        }
        self.pos = before.pos.pass();
        self.hash = position_key(&self.pos);
        Undo { before }
    }

    pub fn unmake_null_move(&mut self, undo: &Undo)
        ensures
            *final(self) == undo.before,
    {
        *self = undo.before;
    }
}

/// The kinds of the back rank, from the queen side.
pub open spec fn back_rank(file: int) -> PieceType {
    if file == 0 || file == 7 {
        PieceType::Rook
    } else if file == 1 || file == 6 {
        PieceType::Knight
    } else if file == 2 || file == 5 {
        PieceType::Bishop
    } else if file == 3 {
        PieceType::Queen
    } else {
        PieceType::King
    }
}

/// What stands on each square before the first move.
pub open spec fn start_piece(s: int) -> Option<(Color, PieceType)> {
    if s < 8 {
        Some((Color::White, back_rank(s)))
    } else if s < 16 {
        Some((Color::White, PieceType::Pawn))
    } else if s < 48 {
        None
    } else if s < 56 {
        Some((Color::Black, PieceType::Pawn))
    } else {
        Some((Color::Black, back_rank(s - 56)))
    }
}

/// The first `n` squares of the array at the start of a game.
pub open spec fn start_upto(n: int) -> Placement
    decreases n,
{
    if n <= 0 {
        [[0u64, 0, 0, 0, 0, 0], [0u64, 0, 0, 0, 0, 0]]
    } else {
        match start_piece(n - 1) {
            Some((c, pt)) => placed(start_upto(n - 1), c.index(), pt.index(), n - 1),
            None => start_upto(n - 1),
        }
    }
}

pub open spec fn start_s() -> Position {
    Position {
        pieces: start_upto(64),
        side: Color::White,
        castling: [true, true, true, true],
        ep: None,
        halfmove: 0,
        fullmove: 1,
    }
}

proof fn lemma_empty_total(pl: Placement, n: int)
    requires
        forall|c: int, t: int| 0 <= c < 2 && 0 <= t < 6 ==> #[trigger] pl[c][t] == 0,
        0 <= n <= 12,
    ensures
        total_upto(pl, n) == 0,
    decreases n,
{
    if n > 0 {
        lemma_empty_total(pl, n - 1);
        lemma_count_zero(64);
    }
}

proof fn lemma_start(n: int)
    requires
        0 <= n <= 64,
    ensures
        total_s(start_upto(n)) <= (if n <= 16 {
            n
        } else if n <= 48 {
            16
        } else {
            n - 32
        }),
        n > 4 ==> start_upto(n)[0][5] != 0,
        n > 60 ==> start_upto(n)[1][5] != 0,
    decreases n,
{
    if n <= 0 {
        lemma_empty_total(start_upto(0), 12);
    } else {
        lemma_start(n - 1);
        match start_piece(n - 1) {
            Some((c, pt)) => {
                let q = start_upto(n - 1);
                lemma_placed_total(q, c.index(), pt.index(), n - 1);
                lemma_with_set(
                    q,
                    c.index(),
                    pt.index(),
                    with_bit(q[c.index()][pt.index()], n - 1),
                );
                lemma_bit_edges(q[c.index()][pt.index()], n - 1);
            },
            None => {},
        }
    }
}

fn back_rank_of(file: u8) -> (r: PieceType)
    ensures
        r == back_rank(file as int),
{
    if file == 0 || file == 7 {
        PieceType::Rook
    } else if file == 1 || file == 6 {
        PieceType::Knight
    } else if file == 2 || file == 5 {
        PieceType::Bishop
    } else if file == 3 {
        PieceType::Queen
    } else {
        PieceType::King
    }
}

fn start() -> (r: Position)
    ensures
        r == start_s(),
        r.wf(),
{
    let mut pl: Placement = [[0u64; 6]; 2];
    let mut s: u8 = 0;
    assert(pl[0] =~= start_upto(0)[0] && pl[1] =~= start_upto(0)[1]);
    assert(pl =~= start_upto(0));
    while s < 64
        invariant
            s <= 64,
            pl == start_upto(s as int),
        decreases 64 - s,
    {
        if s < 8 {
            place_piece(&mut pl, 0, back_rank_of(s).idx(), s);
        } else if s < 16 {
            place_piece(&mut pl, 0, 0, s);
        } else if s >= 56 {
            place_piece(&mut pl, 1, back_rank_of(s - 56).idx(), s);
        } else if s >= 48 {
            place_piece(&mut pl, 1, 0, s);
        }
        s = s + 1;
    }
    proof {
        lemma_start(64);
    }
    Position {
        pieces: pl,
        side: Color::White,
        castling: [true, true, true, true],
        ep: None,
        halfmove: 0,
        fullmove: 1,
    }
}

/// The key does not count the moves: positions that differ in their counters
/// alone share it.
pub proof fn law_key_ignores_the_counters(p: Position, halfmove: u16, fullmove: u16)
    ensures
        hash_s(Position { halfmove, fullmove, ..p }) == hash_s(p),
{
    reveal(hash_s);
}

/// With the pieces where they are, the key tells the side to move, the castling
/// rights and the square for taking in passing apart.
pub proof fn law_key_tells_states_apart(p: Position, q: Position)
    requires
        p.pieces == q.pieces,
        p.ep matches Some(s) ==> s < 64,
        q.ep matches Some(s) ==> s < 64,
        hash_s(p) == hash_s(q),
    ensures
        p.side == q.side,
        p.castling == q.castling,
        p.ep == q.ep,
{
    reveal(hash_s);
    let k = subset_key_s(p.pieces, both_colors(), all_kinds());
    let a = (0x5_0000 + state_word(p)) as u64;
    let b = (0x5_0000 + state_word(q)) as u64;
    let x = mix_s(a);
    let y = mix_s(b);
    assert(k ^ x == k ^ y ==> x == y) by (bit_vector);
    law_mix_loses_nothing(a, b);
    let v = state_word(p);
    let w = state_word(q);
    assert(v == w);
    assert(v % 2 == p.us() && w % 2 == q.us());
    assert((v / 2) % 2 == (if p.castling[0] { 1int } else { 0 }));
    assert((w / 2) % 2 == (if q.castling[0] { 1int } else { 0 }));
    assert((v / 4) % 2 == (if p.castling[1] { 1int } else { 0 }));
    assert((w / 4) % 2 == (if q.castling[1] { 1int } else { 0 }));
    assert((v / 8) % 2 == (if p.castling[2] { 1int } else { 0 }));
    assert((w / 8) % 2 == (if q.castling[2] { 1int } else { 0 }));
    assert((v / 16) % 2 == (if p.castling[3] { 1int } else { 0 }));
    assert((w / 16) % 2 == (if q.castling[3] { 1int } else { 0 }));
    assert(p.castling =~= q.castling);
}

/// A board is what its position says it is: one reached by playing moves, with
/// its accumulator carried along, and one built from nothing are the same.
pub proof fn law_incremental_equals_rebuilt(a: Board, b: Board, net: Option<Weights>)
    requires
        a.wf(net),
        b.wf(net),
        a.pos == b.pos,
        a.acc is Some == b.acc is Some,
    ensures
        a == b,
{
    if let Some(x) = a.acc {
        let y = b.acc->0;
        let w = net->0;
        law_accumulator_unique(x.half[0], y.half[0], w, Color::White, a.pos.pieces);
        law_accumulator_unique(x.half[1], y.half[1], w, Color::Black, a.pos.pieces);
        assert(x.half =~= y.half);
    }
}

}
