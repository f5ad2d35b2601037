//! A conversation with the engine: what each line changes, and what it asks to
//! be done outside.
use vstd::prelude::*;
use crate::board::Board;
use crate::fen::texts;
use crate::nnue::{install, Network};
use crate::params::{Limits, Params};
use crate::searcher::{lmr_ok, Searcher};
use crate::text::{all_small, ascii, lower_s, lowered};
use crate::uci::{
    change_s, command_of, command_s, fresh_state, game_started, join, joined, limits_upto,
    option_set, option_words, parse_go, place_from, position_answer, position_set, Change, Command,
};
use std::sync::atomic::AtomicBool;
use std::sync::Arc;

verus! {

pub struct Session {
    pub searcher: Searcher,
    pub board: Board,
    /// Where the network is to be found, as far as anybody has said.
    pub net_path: String,
    pub net_loaded: bool,
}

/// What a line asks to be done outside.
#[derive(Clone, Copy)]
pub enum Action {
    Nothing,
    /// Say who this is and what its options are.
    Introduce,
    /// Look for a network and hand it in, and say that all is ready either way.
    LoadNetwork,
    /// Say that all is ready.
    Ready,
    /// Rebuild what is derived from the parameters and hand it in.
    Rebuild,
    /// The same for a table of this many megabytes.
    Resize(usize),
    /// This word is not a legal move.
    Illegal(usize),
    /// The position cannot be read.
    Unreadable,
    /// Search within these limits and say what to play.
    Search(Limits),
    /// Say what the position is worth.
    Evaluate,
    Quit,
}

/// The name in a `setoption` command, as it is written.
pub open spec fn option_written(f: Seq<Seq<char>>) -> Seq<char> {
    joined(f, place_from(f, "name"@, 0) + 1, place_from(f, "value"@, 0))
}

/// The name in a `setoption` command, in small letters.
pub open spec fn option_called(f: Seq<Seq<char>>) -> Seq<char> {
    lower_s(option_written(f))
}

/// An option written in ASCII goes by that name with its capitals made small.
pub open spec fn plainly_named(f: Seq<Seq<char>>) -> bool {
    f.len() > 0 && command_s(f[0]) is SetOption && names_option(f) && ascii(option_written(f))
        ==> option_called(f) == all_small(option_written(f))
}

pub open spec fn option_value(f: Seq<Seq<char>>) -> Seq<char> {
    joined(f, place_from(f, "value"@, 0) + 1, f.len() as int)
}

/// Both a name and a value are there.
pub open spec fn names_option(f: Seq<Seq<char>>) -> bool {
    place_from(f, "name"@, 0) < f.len() && place_from(f, "value"@, 0) < f.len()
}

/// No option gives its value before its name.
pub open spec fn orderly(f: Seq<Seq<char>>) -> bool {
    f.len() > 0 && command_s(f[0]) is SetOption && names_option(f) ==> place_from(f, "name"@, 0)
        < place_from(f, "value"@, 0)
}

pub open spec fn asked_by(c: Change) -> Action {
    match c {
        Change::Resize(mb) => Action::Resize(mb),
        Change::Params => Action::Rebuild,
        _ => Action::Nothing,
    }
}

/// What a line asks to be done.
pub open spec fn action_s(s: Session, f: Seq<Seq<char>>) -> Action {
    if f.len() == 0 {
        Action::Nothing
    } else {
        match command_s(f[0]) {
            Command::Uci => Action::Introduce,
            Command::IsReady => if s.net_loaded { Action::Ready } else { Action::LoadNetwork },
            Command::SetOption => if names_option(f) {
                asked_by(change_s(option_called(f), option_value(f)))
            } else {
                Action::Nothing
            },
            Command::Position => match position_answer(f, s.board.pos) {
                None => Action::Unreadable,
                Some(Some(i)) => Action::Illegal(i),
                Some(None) => Action::Nothing,
            },
            Command::Go => Action::Search(limits_upto(f, f.len() as int)),
            Command::Quit => Action::Quit,
            Command::Eval => Action::Evaluate,
            _ => Action::Nothing,
        }
    }
}

/// What a line changes.
pub open spec fn stepped(a: Session, f: Seq<Seq<char>>, b: Session) -> bool {
    if f.len() == 0 {
        b == a
    } else {
        match command_s(f[0]) {
            Command::SetOption => if names_option(f) {
                let name = option_called(f);
                let value = option_value(f);
                &&& b.searcher == option_set(a.searcher, name, value)
                &&& b.board == a.board
                &&& if change_s(name, value) is EvalFile {
                    b.net_path@ == value && !b.net_loaded
                } else {
                    b.net_path == a.net_path && b.net_loaded == a.net_loaded
                }
            } else {
                b == a
            },
            Command::NewGame => {
                &&& game_started(a.searcher, b.searcher, b.board)
                &&& b.net_path == a.net_path
                &&& b.net_loaded == a.net_loaded
            },
            Command::Position => {
                &&& position_set(a.searcher, a.board, f, b.searcher, b.board)
                &&& b.net_path == a.net_path
                &&& b.net_loaded == a.net_loaded
            },
            _ => b == a,
        }
    }
}

impl Session {
    pub open spec fn wf(&self) -> bool {
        self.searcher.wf() && self.board.wf(self.searcher.ev.weights())
    }

    /// A table of sixteen megabytes, the starting position and no network.
    pub fn new(stop: Arc<AtomicBool>, lmr: Vec<i32>) -> (r: Self)
        requires
            lmr_ok(lmr@),
        ensures
            r.wf(),
            r.searcher@ == fresh_state(16),
            r.searcher.lmr@ == lmr@,
            r.searcher.stop == stop,
            r.searcher.params == crate::params::default_params(),
            r.searcher.features == crate::params::default_features(),
            r.searcher.move_overhead == 30,
            r.searcher.ev.weights() is None,
            r.board.pos == crate::board::start_s(),
            r.board.acc is None,
            r.net_path@.len() == 0,
            !r.net_loaded,
    {
        let searcher: Searcher = Searcher::new(16, stop, lmr);
        assert(searcher@ =~= fresh_state(16));
        let board: Board = Board::startpos(&searcher.ev);
        Session { searcher, board, net_path: String::new(), net_loaded: false }
    }

    fn take_option(&mut self, words: &Vec<String>) -> (r: Action)
        requires
            old(self).wf(),
            words@.len() > 0,
            command_s(words@[0]@) is SetOption,
            orderly(texts(words@)),
        ensures
            final(self).wf(),
            r == action_s(*old(self), texts(words@)),
            stepped(*old(self), texts(words@), *final(self)),
            plainly_named(texts(words@)),
    {
        let ghost f = texts(words@);
        assert(f[0] == words@[0]@);
        let size: usize = words.len();
        match option_words(words) {
            Some((n, v)) => {
                let name: String = lowered(join(words, n + 1, v).as_str());
                let value: String = join(words, v + 1, size);
                match self.searcher.set_option(name.as_str(), value.as_str()) {
                    Change::Nothing => Action::Nothing,
                    Change::Params => Action::Rebuild,
                    Change::Resize(mb) => Action::Resize(mb),
                    Change::EvalFile => {
                        self.net_path = value;
                        self.net_loaded = false;
                        Action::Nothing
                    },
                }
            },
            None => Action::Nothing,
        }
    }

    /// Take in one line, split into words.
    pub fn step(&mut self, words: &Vec<String>) -> (r: Action)
        requires
            old(self).wf(),
            orderly(texts(words@)),
        ensures
            final(self).wf(),
            r == action_s(*old(self), texts(words@)),
            stepped(*old(self), texts(words@), *final(self)),
            plainly_named(texts(words@)),
    {
        if words.len() == 0 {
            return Action::Nothing;
        }
        assert(texts(words@)[0] == words@[0]@);
        match command_of(words[0].as_str()) {
            Command::Uci => Action::Introduce,
            Command::IsReady => if self.net_loaded {
                Action::Ready
            } else {
                Action::LoadNetwork
            },
            Command::SetOption => self.take_option(words),
            Command::NewGame => {
                self.board = self.searcher.new_game();
                Action::Nothing
            },
            Command::Position => match self.searcher.set_position(&mut self.board, words) {
                None => Action::Unreadable,
                Some(Some(i)) => Action::Illegal(i),
                Some(None) => Action::Nothing,
            },
            Command::Go => Action::Search(parse_go(words)),
            Command::Quit => Action::Quit,
            Command::Eval => Action::Evaluate,
            Command::Stop => Action::Nothing,
            Command::Unknown => Action::Nothing,
        }
    }

    /// A network has been read. The first one is kept for good; the position was
    /// made before there was one to build an accumulator with, so the board is
    /// built again.
    pub fn take_network(&mut self, n: Network)
        requires
            old(self).wf(),
            n@.wf(),
        ensures
            final(self).wf(),
            final(self).net_loaded,
            final(self).net_path == old(self).net_path,
            final(self).board.pos == old(self).board.pos,
            final(self).board.acc is Some,
            old(self).searcher.ev.weights() is None ==> final(self).searcher.ev.weights() == Some(
                n@,
            ),
            old(self).searcher.ev.weights() is Some ==> final(self).searcher.ev == old(
                self,
            ).searcher.ev,
            *final(self) == (Session {
                net_loaded: true,
                board: final(self).board,
                searcher: Searcher { ev: final(self).searcher.ev, ..old(self).searcher },
                ..*old(self)
            }),
    {
        install(&mut self.searcher.ev, n);
        self.net_loaded = true;
        self.board = Board::new(&self.board.pos, &self.searcher.ev);
    }

    /// A table of another size has been asked for.
    pub fn resize(&mut self, hash_mb: usize, lmr: Vec<i32>)
        requires
            old(self).wf(),
            1 <= hash_mb <= 65536,
            lmr_ok(lmr@),
        ensures
            final(self).wf(),
            final(self).searcher@ == fresh_state(hash_mb as int),
            final(self).searcher.lmr@ == lmr@,
            final(self).searcher.params == old(self).searcher.params,
            final(self).searcher.features == old(self).searcher.features,
            final(self).searcher.move_overhead == old(self).searcher.move_overhead,
            final(self).searcher.ev == old(self).searcher.ev,
            final(self).searcher.stop == old(self).searcher.stop,
            final(self).searcher.root_keys == 0,
            !final(self).searcher.stopped,
            final(self).board == old(self).board,
            final(self).net_path == old(self).net_path,
            final(self).net_loaded == old(self).net_loaded,
    {
        self.searcher.resize(hash_mb, lmr);
    }
}

}
