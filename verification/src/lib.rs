//! A codec for chess games in Portable Game Notation. The moves of a game
//! are ranked among the legal moves of their position, and the ranks are
//! written with a Huffman code that is fixed (`huffman`), follows the game
//! (`dynamic_huffman`) or is preceded by the number of a known opening
//! (`opening_huffman`); the seven tags are deflated and framed in front
//! (`headers`). A fallback serializes and deflates the whole game
//! (`bincode_zlib`).
//!
//! The rules of chess come from the `shakmaty` crate (`chess`), the Huffman
//! codes from `huffman-compress` (`codebook`), bit strings from `bit-vec`
//! (`bits`), and the bytes of tags and games from `bincode` and `flate2`
//! (`serial`).

pub mod ans;
pub mod bincode_zlib;
pub mod bits;
pub mod chess;
pub mod codebook;
pub mod codec;
pub mod dynamic_huffman;
pub mod error;
pub mod eval;
pub mod headers;
pub mod huffman;
pub mod lock_step;
pub mod opening_huffman;
pub mod openings;
pub mod pgn_data;
pub mod pgn_db_iter;
pub mod score_move;
pub mod serial;
pub mod text;
pub mod weights;
