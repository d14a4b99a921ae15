//! The three codecs behind one signature, from games to bytes and back.

use crate::bincode_zlib;
use crate::bits::{bits_of, bits_to_bytes, bitvec_from_bytes, bitvec_to_bytes, bytes_to_bits};
use crate::dynamic_huffman;
use crate::dynamic_huffman::GAUSSIAN_BUMPS;
use crate::error::{DecodeError, EncodeError};
use crate::huffman;
use crate::huffman::{bits_result, game_result};
use crate::pgn_data::{game_text, wrapped_text, GameView, PgnData};
use bit_vec::BitVec;
use vstd::prelude::*;

verus! {

/// The way in which a game is compressed.
#[derive(Debug, Clone, Copy, PartialEq, Eq, Structural)]
pub enum Codec {
    /// The whole game serialized and deflated.
    Bincode,
    /// The moves in the Huffman code of the baseline weights.
    Huffman,
    /// The moves in the Huffman codes of weights that follow the game.
    DynamicHuffman,
}

impl Codec {
    /// The codec of an optimization level: 0, 1 or 2.
    pub fn from_level(level: u8) -> (r: Option<Codec>)
        ensures
            r == (if level == 0 {
                Some(Codec::Bincode)
            } else if level == 1 {
                Some(Codec::Huffman)
            } else if level == 2 {
                Some(Codec::DynamicHuffman)
            } else {
                None
            }),
    {
        if level == 0 {
            Some(Codec::Bincode)
        } else if level == 1 {
            Some(Codec::Huffman)
        } else if level == 2 {
            Some(Codec::DynamicHuffman)
        } else {
            None
        }
    }
}

/// The bits of a game in a codec.
pub open spec fn compress_spec(codec: Codec, game: GameView) -> Result<Seq<bool>, EncodeError> {
    match codec {
        Codec::Bincode => bincode_zlib::compress_pgn_data_spec(game),
        Codec::Huffman => huffman::compress_pgn_data_spec(game),
        Codec::DynamicHuffman => dynamic_huffman::compress_pgn_data_custom_spec(
            game,
            GAUSSIAN_BUMPS@,
        ),
    }
}

/// The game that bits stand for in a codec.
pub open spec fn decompress_spec(codec: Codec, bits: Seq<bool>) -> Result<GameView, DecodeError> {
    match codec {
        Codec::Bincode => bincode_zlib::decompress_pgn_data_spec(bits),
        Codec::Huffman => huffman::decompress_pgn_data_spec(bits),
        Codec::DynamicHuffman => dynamic_huffman::decompress_pgn_data_custom_spec(
            bits,
            GAUSSIAN_BUMPS@,
        ),
    }
}

/// Compresses a game with the given codec. What comes out has at least
/// one bit.
pub fn compress(codec: Codec, pgn_data: &PgnData) -> (r: Result<BitVec, EncodeError>)
    ensures
        bits_result(r) == compress_spec(codec, pgn_data@),
        r matches Ok(b) ==> bits_of(b).len() >= 1,
{
    match codec {
        Codec::Bincode => bincode_zlib::compress_pgn_data(pgn_data),
        Codec::Huffman => huffman::compress_pgn_data(pgn_data),
        Codec::DynamicHuffman => dynamic_huffman::compress_pgn_data(pgn_data),
    }
}

/// Decompresses a game with the given codec.
pub fn decompress(codec: Codec, compressed_data: &BitVec) -> (r: Result<PgnData, DecodeError>)
    ensures
        game_result(r) == decompress_spec(codec, bits_of(*compressed_data)),
{
    match codec {
        Codec::Bincode => bincode_zlib::decompress_pgn_data(compressed_data),
        Codec::Huffman => huffman::decompress_pgn_data(compressed_data),
        Codec::DynamicHuffman => dynamic_huffman::decompress_pgn_data(compressed_data),
    }
}

/// The bytes that are handed out for a game: none for a game without tags
/// and moves or for one that could not be compressed, else the compressed
/// bits, the last byte filled up with zeros.
pub open spec fn bytes_handed_out(game_is_empty: bool, compressed: Result<Seq<bool>, EncodeError>) -> Seq<
    u8,
> {
    if game_is_empty {
        Seq::empty()
    } else {
        match compressed {
            Ok(bits) => bits_to_bytes(bits),
            Err(_) => Seq::empty(),
        }
    }
}

/// The bytes that are handed out for a game, given what compressing it
/// came to.
pub fn bytes_of_result(game_is_empty: bool, compressed: Result<BitVec, EncodeError>) -> (r: Vec<u8>)
    ensures
        r@ == bytes_handed_out(game_is_empty, bits_result(compressed)),
{
    if game_is_empty {
        return Vec::new();
    }
    match compressed {
        Ok(bits) => bitvec_to_bytes(&bits),
        Err(_) => Vec::new(),
    }
}

/// Compresses a game into bytes; no bytes stand for a failure and for a
/// game without tags and moves.
pub fn compress_pgn(codec: Codec, pgn_data: &PgnData) -> (r: Vec<u8>)
    ensures
        r@ == bytes_handed_out(
            pgn_data@.headers.is_empty() && pgn_data@.moves.len() == 0,
            compress_spec(codec, pgn_data@),
        ),
{
    if pgn_data.is_empty() {
        return bytes_of_result(true, Err(EncodeError::IllegalInput));
    }
    let compressed = compress(codec, pgn_data);
    bytes_of_result(false, compressed)
}

/// The text that is handed out for compressed bytes: the text of the game
/// they stand for, or no text where they stand for none.
pub open spec fn text_handed_out(decompressed: Result<GameView, DecodeError>) -> Seq<char> {
    match decompressed {
        Ok(game) => wrapped_text(game_text(game), 80),
        Err(_) => Seq::empty(),
    }
}

/// Decompresses bytes into the text of a game; no text stands for a
/// failure. More bytes than a bit string can hold bits for are a failure.
pub fn decompress_pgn_str(codec: Codec, compressed_data: &[u8]) -> (r: String)
    ensures
        r@ == (if compressed_data@.len() * 8 > usize::MAX {
            Seq::empty()
        } else {
            text_handed_out(decompress_spec(codec, bytes_to_bits(compressed_data@)))
        }),
{
    if compressed_data.len() > usize::MAX / 8 {
        return String::new();
    }
    let bits = bitvec_from_bytes(compressed_data);
    match decompress(codec, &bits) {
        Ok(pgn_data) => pgn_data.to_string(),
        Err(_) => String::new(),
    }
}

} // verus!
