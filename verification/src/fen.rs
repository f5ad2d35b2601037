//! Reading a position from its six fields.
use vstd::prelude::*;
use vstd::string::*;
use crate::position::{place_piece, placed, total, Placement, Position};
use crate::text::{parse_unsigned, unsigned};
use crate::types::{Color, PieceType};

verus! {

/// The piece a letter stands for: White's are capitals.
pub open spec fn piece_letter(c: char) -> Option<(Color, PieceType)> {
    if c == 'P' {
        Some((Color::White, PieceType::Pawn))
    } else if c == 'N' {
        Some((Color::White, PieceType::Knight))
    } else if c == 'B' {
        Some((Color::White, PieceType::Bishop))
    } else if c == 'R' {
        Some((Color::White, PieceType::Rook))
    } else if c == 'Q' {
        Some((Color::White, PieceType::Queen))
    } else if c == 'K' {
        Some((Color::White, PieceType::King))
    } else if c == 'p' {
        Some((Color::Black, PieceType::Pawn))
    } else if c == 'n' {
        Some((Color::Black, PieceType::Knight))
    } else if c == 'b' {
        Some((Color::Black, PieceType::Bishop))
    } else if c == 'r' {
        Some((Color::Black, PieceType::Rook))
    } else if c == 'q' {
        Some((Color::Black, PieceType::Queen))
    } else if c == 'k' {
        Some((Color::Black, PieceType::King))
    } else {
        None
    }
}

fn letter_piece(c: char) -> (r: Option<(Color, PieceType)>)
    ensures
        r == piece_letter(c),
{
    if c == 'P' {
        Some((Color::White, PieceType::Pawn))
    } else if c == 'N' {
        Some((Color::White, PieceType::Knight))
    } else if c == 'B' {
        Some((Color::White, PieceType::Bishop))
    } else if c == 'R' {
        Some((Color::White, PieceType::Rook))
    } else if c == 'Q' {
        Some((Color::White, PieceType::Queen))
    } else if c == 'K' {
        Some((Color::White, PieceType::King))
    } else if c == 'p' {
        Some((Color::Black, PieceType::Pawn))
    } else if c == 'n' {
        Some((Color::Black, PieceType::Knight))
    } else if c == 'b' {
        Some((Color::Black, PieceType::Bishop))
    } else if c == 'r' {
        Some((Color::Black, PieceType::Rook))
    } else if c == 'q' {
        Some((Color::Black, PieceType::Queen))
    } else if c == 'k' {
        Some((Color::Black, PieceType::King))
    } else {
        None
    }
}

/// The piece field from character `i` on, the next piece standing on `file` of
/// `rank`: ranks from the eighth down, files from the first up.
pub open spec fn board_from(
    s: Seq<char>,
    i: int,
    pl: Placement,
    rank: int,
    file: int,
) -> Option<Placement>
    decreases s.len() - i,
{
    if i >= s.len() {
        if rank == 0 && file == 8 { Some(pl) } else { None }
    } else if s[i] == '/' {
        if file == 8 && rank > 0 { board_from(s, i + 1, pl, rank - 1, 0) } else { None }
    } else if '1' <= s[i] && s[i] <= '8' {
        let step = s[i] as int - '0' as int;
        if file + step <= 8 { board_from(s, i + 1, pl, rank, file + step) } else { None }
    } else {
        match piece_letter(s[i]) {
            Some((c, pt)) if file < 8 => board_from(
                s,
                i + 1,
                placed(pl, c.index(), pt.index(), rank * 8 + file),
                rank,
                file + 1,
            ),
            _ => None,
        }
    }
}

pub open spec fn nothing() -> Placement {
    [[0u64, 0, 0, 0, 0, 0], [0u64, 0, 0, 0, 0, 0]]
}

fn read_board(s: &str) -> (r: Option<Placement>)
    ensures
        r == board_from(s@, 0, nothing(), 7, 0),
{
    let n: usize = s.unicode_len();
    let mut pl: Placement = [[0u64; 6]; 2];
    assert(pl[0] =~= nothing()[0] && pl[1] =~= nothing()[1]);
    assert(pl =~= nothing());
    let mut rank: u8 = 7;
    let mut file: u8 = 0;
    let mut i: usize = 0;
    while i < n
        invariant
            i <= n,
            n == s@.len(),
            rank <= 7,
            file <= 8,
            board_from(s@, 0, nothing(), 7, 0) == board_from(
                s@,
                i as int,
                pl,
                rank as int,
                file as int,
            ),
        decreases n - i,
    {
        let c: char = s.get_char(i);
        if c == '/' {
            if file != 8 || rank == 0 {
                return None;
            }
            rank = rank - 1;
            file = 0;
        } else if '1' <= c && c <= '8' {
            let step: u8 = c as u8 - 48;
            if file + step > 8 {
                return None;
            }
            file = file + step;
        } else {
            match letter_piece(c) {
                Some((side, pt)) => {
                    if file >= 8 {
                        return None;
                    }
                    place_piece(&mut pl, side.idx(), pt.idx(), rank * 8 + file);
                    file = file + 1;
                },
                None => {
                    return None;
                },
            }
        }
        i = i + 1;
    }
    if rank == 0 && file == 8 {
        Some(pl)
    } else {
        None
    }
}

/// The side to move.
pub open spec fn side_field(s: Seq<char>) -> Option<Color> {
    if s == seq!['w'] {
        Some(Color::White)
    } else if s == seq!['b'] {
        Some(Color::Black)
    } else {
        None
    }
}

fn read_side(s: &str) -> (r: Option<Color>)
    ensures
        r == side_field(s@),
{
    if s.unicode_len() != 1 {
        return None;
    }
    let c: char = s.get_char(0);
    if c == 'w' {
        assert(s@ =~= seq!['w']);
        Some(Color::White)
    } else if c == 'b' {
        assert(s@ =~= seq!['b']);
        Some(Color::Black)
    } else {
        assert(s@[0] == c);
        None
    }
}

pub open spec fn castling_letter(c: char) -> Option<int> {
    if c == 'K' {
        Some(0)
    } else if c == 'Q' {
        Some(1)
    } else if c == 'k' {
        Some(2)
    } else if c == 'q' {
        Some(3)
    } else {
        None
    }
}

/// Every character is a right.
pub open spec fn rights_only(s: Seq<char>) -> bool {
    forall|i: int| 0 <= i < s.len() ==> castling_letter(#[trigger] s[i]) is Some
}

/// The castling rights: a dash, or the letters of those there are.
pub open spec fn castling_ok(s: Seq<char>) -> bool {
    s == seq!['-'] || (s.len() > 0 && rights_only(s))
}

pub open spec fn castling_field(s: Seq<char>) -> [bool; 4] {
    [s.contains('K'), s.contains('Q'), s.contains('k'), s.contains('q')]
}

fn has_char(s: &str, c: char) -> (r: bool)
    ensures
        r == s@.contains(c),
{
    let n: usize = s.unicode_len();
    let mut i: usize = 0;
    while i < n
        invariant
            i <= n,
            n == s@.len(),
            forall|j: int| 0 <= j < i ==> s@[j] != c,
        decreases n - i,
    {
        if s.get_char(i) == c {
            assert(s@[i as int] == c);
            return true;
        }
        i = i + 1;
    }
    false
}

fn read_castling(s: &str) -> (r: Option<[bool; 4]>)
    ensures
        r is Some == castling_ok(s@),
        r matches Some(c) ==> c == castling_field(s@),
{
    let n: usize = s.unicode_len();
    if n == 0 {
        return None;
    }
    let mut dash: bool = false;
    if n == 1 {
        dash = s.get_char(0) == '-';
        if dash {
            assert(s@ =~= seq!['-']);
        }
    }
    if !dash {
        let mut i: usize = 0;
        assert(s@ != seq!['-']) by {
            if s@ == seq!['-'] {
                assert(s@.len() == 1 && s@[0] == '-');
            }
        }
        while i < n
            invariant
                i <= n,
                n == s@.len(),
                s@ != seq!['-'],
                forall|j: int| 0 <= j < i ==> castling_letter(#[trigger] s@[j]) is Some,
            decreases n - i,
        {
            let c: char = s.get_char(i);
            if c != 'K' && c != 'Q' && c != 'k' && c != 'q' {
                assert(castling_letter(s@[i as int]) is None);
                return None;
            }
            i = i + 1;
        }
    }
    let r: [bool; 4] = [
        has_char(s, 'K'),
        has_char(s, 'Q'),
        has_char(s, 'k'),
        has_char(s, 'q'),
    ];
    assert(r =~= castling_field(s@));
    Some(r)
}

/// The square a pawn may be taken on in passing: a dash, or a file and a rank.
pub open spec fn ep_ok(s: Seq<char>) -> bool {
    s == seq!['-'] || (s.len() == 2 && 'a' <= s[0] && s[0] <= 'h' && '1' <= s[1] && s[1] <= '8')
}

pub open spec fn ep_field(s: Seq<char>) -> Option<u8> {
    if s.len() == 2 {
        Some(((s[1] as int - '1' as int) * 8 + (s[0] as int - 'a' as int)) as u8)
    } else {
        None
    }
}

fn read_ep(s: &str) -> (r: Option<Option<u8>>)
    ensures
        r is Some == ep_ok(s@),
        r matches Some(e) ==> e == ep_field(s@) && (e matches Some(q) ==> q < 64),
{
    let n: usize = s.unicode_len();
    if n == 1 {
        if s.get_char(0) == '-' {
            assert(s@ =~= seq!['-']);
            return Some(None);
        }
        assert(s@[0] != '-');
        return None;
    }
    if n != 2 {
        return None;
    }
    let f: char = s.get_char(0);
    let k: char = s.get_char(1);
    if 'a' <= f && f <= 'h' && '1' <= k && k <= '8' {
        Some(Some((k as u8 - 49) * 8 + (f as u8 - 97)))
    } else {
        None
    }
}

/// The fields of a position, and that it can be played on.
pub open spec fn fen_ok(f: Seq<Seq<char>>) -> bool {
    &&& f.len() >= 4
    &&& board_from(f[0], 0, nothing(), 7, 0) is Some
    &&& side_field(f[1]) is Some
    &&& castling_ok(f[2])
    &&& ep_ok(f[3])
    &&& f.len() > 4 ==> unsigned(f[4], 65535) is Some
    &&& f.len() > 5 ==> unsigned(f[5], 65535) is Some
    &&& fen_position(f).wf()
}

/// The position the fields describe. The two counters may be left out.
pub open spec fn fen_position(f: Seq<Seq<char>>) -> Position {
    Position {
        pieces: board_from(f[0], 0, nothing(), 7, 0)->0,
        side: side_field(f[1])->0,
        castling: castling_field(f[2]),
        ep: ep_field(f[3]),
        halfmove: if f.len() > 4 { unsigned(f[4], 65535)->0 as u16 } else { 0 },
        fullmove: if f.len() > 5 { unsigned(f[5], 65535)->0 as u16 } else { 1 },
    }
}

/// The tokens of a command as sequences of characters.
pub open spec fn texts(tokens: Seq<String>) -> Seq<Seq<char>> {
    Seq::new(tokens.len(), |i: int| tokens[i]@)
}

impl Position {
    /// Both kings are there, and no more than thirty-two pieces.
    pub fn is_sound(&self) -> (r: bool)
        ensures
            r == self.wf(),
    {
        let ep_fits: bool = match self.ep {
            Some(s) => s < 64,
            None => true,
        };
        self.pieces[0][5] != 0 && self.pieces[1][5] != 0 && total(&self.pieces) <= 32 && ep_fits
    }

    /// Read a position from its fields. None where a field cannot be read, a
    /// king is missing or there are too many pieces.
    pub fn from_fen(fields: &Vec<String>) -> (r: Option<Position>)
        ensures
            r is Some == fen_ok(texts(fields@)),
            r matches Some(p) ==> p == fen_position(texts(fields@)) && p.wf(),
    {
        let n: usize = fields.len();
        let ghost f = texts(fields@);
        if n < 4 {
            return None;
        }
        assert(f[0] == fields@[0]@ && f[1] == fields@[1]@ && f[2] == fields@[2]@ && f[3]
            == fields@[3]@);
        let pieces: Placement = match read_board(fields[0].as_str()) {
            Some(p) => p,
            None => {
                return None;
            },
        };
        let side: Color = match read_side(fields[1].as_str()) {
            Some(s) => s,
            None => {
                return None;
            },
        };
        let castling: [bool; 4] = match read_castling(fields[2].as_str()) {
            Some(c) => c,
            None => {
                return None;
            },
        };
        let ep: Option<u8> = match read_ep(fields[3].as_str()) {
            Some(e) => e,
            None => {
                return None;
            },
        };
        let mut halfmove: u16 = 0;
        if n > 4 {
            assert(f[4] == fields@[4]@);
            match parse_unsigned(fields[4].as_str(), 65535) {
                Some(v) => {
                    halfmove = v as u16;
                },
                None => {
                    return None;
                },
            }
        }
        let mut fullmove: u16 = 1;
        if n > 5 {
            assert(f[5] == fields@[5]@);
            match parse_unsigned(fields[5].as_str(), 65535) {
                Some(v) => {
                    fullmove = v as u16;
                },
                None => {
                    return None;
                },
            }
        }
        let p = Position { pieces, side, castling, ep, halfmove, fullmove };
        assert(p == fen_position(f));
        if p.is_sound() {
            Some(p)
        } else {
            None
        }
    }
}

}
