//! A chess engine: the rules of the game, the network that scores a position,
//! the search and the protocol, each stated as a contract and proved.
pub mod num;
pub mod types;
pub mod moves;
pub mod bitboard;
pub mod zobrist;
pub mod position;
pub mod movegen;
pub mod see;
pub mod tt;
pub mod nnue;
pub mod net_laws;
pub mod board;
pub mod perft;
pub mod text;
pub mod params;
pub mod score;
pub mod lore;
pub mod trail;
pub mod histories;
pub mod order;
pub mod drain;
pub mod rank;
pub mod node;
pub mod clock;
pub mod clock_laws;
pub mod searcher;
pub mod quiesce;
pub mod tree;
pub mod negamax;
pub mod reftree;
pub mod refsearch;
pub mod deepen;
pub mod fen;
pub mod uci;
pub mod session;
pub mod rules_laws;
pub mod memory_laws;
pub mod lore_laws;
pub mod order_laws;
pub mod quiet_laws;
pub mod search_laws;
pub mod prune_laws;
pub mod node_laws;
pub mod value_laws;
pub mod deepen_laws;
pub mod protocol_laws;
