//! The fallback codec: the whole game serialized and deflated.

use crate::bits::{
    bits_of, bits_to_bytes, bitvec_from_bytes, bitvec_to_bytes, bytes_to_bits,
    lemma_bytes_bits_round_trip,
};
use crate::error::{DecodeError, EncodeError};
use crate::huffman::{bits_result, game_result};
use crate::pgn_data::{GameView, PgnData};
use crate::serial::{
    bincode_game, bincode_game_read, deserialize_game, lemma_game_read_back, serialize_game,
    zlib_compress, zlib_decompress, zlib_deflated, zlib_inflated,
};
use bit_vec::BitVec;
use vstd::prelude::*;

verus! {

/// The bits of a game in the fallback codec: the game serialized and
/// deflated. What is deflated has at least one byte and no more bits than a
/// bit string can hold; else, and where the deflater fails, there are none.
pub open spec fn compress_pgn_data_spec(game: GameView) -> Result<Seq<bool>, EncodeError> {
    match zlib_deflated(bincode_game(game)) {
        None => Err(EncodeError::SerializationFailure),
        Some(out) => if out.len() == 0 || out.len() * 8 > usize::MAX {
            Err(EncodeError::SerializationFailure)
        } else {
            Ok(bytes_to_bits(out))
        },
    }
}

/// The game that bits stand for in the fallback codec. Bits past the last
/// whole byte count as a byte filled up with zeros.
pub open spec fn decompress_pgn_data_spec(bits: Seq<bool>) -> Result<GameView, DecodeError> {
    match zlib_inflated(bits_to_bytes(bits)) {
        None => Err(DecodeError::DeserializationFailure),
        Some(raw) => match bincode_game_read(raw) {
            None => Err(DecodeError::DeserializationFailure),
            Some(game) => Ok(game),
        },
    }
}

/// Compresses a game: the game is serialized, and the bytes are deflated at
/// the best level. What comes out has at least eight bits and decompresses
/// to the game again.
pub fn compress_pgn_data(pgn_data: &PgnData) -> (r: Result<BitVec, EncodeError>)
    ensures
        bits_result(r) == compress_pgn_data_spec(pgn_data@),
        r matches Ok(b) ==> bits_of(b).len() >= 8 && decompress_pgn_data_spec(bits_of(b)) == Ok::<
            GameView,
            DecodeError,
        >(pgn_data@),
{
    let raw = match serialize_game(pgn_data) {
        Ok(raw) => raw,
        Err(_) => {
            return Err(EncodeError::SerializationFailure);
        },
    };
    let compressed_data = match zlib_compress(raw.as_slice()) {
        Ok(compressed_data) => compressed_data,
        Err(_) => {
            return Err(EncodeError::SerializationFailure);
        },
    };
    if compressed_data.len() == 0 || compressed_data.len() > usize::MAX / 8 {
        return Err(EncodeError::SerializationFailure);
    }
    let raw_len = raw.len();
    let moves_len = pgn_data.moves.len();
    proof {
        assert(raw@.len() == raw_len);
        assert(pgn_data@.moves.len() == moves_len);
        lemma_bytes_bits_round_trip(compressed_data@);
        lemma_game_read_back(pgn_data@);
    }
    Ok(bitvec_from_bytes(compressed_data.as_slice()))
}

/// Decompresses a game that the fallback codec compressed.
pub fn decompress_pgn_data(compressed_data: &BitVec) -> (r: Result<PgnData, DecodeError>)
    ensures
        game_result(r) == decompress_pgn_data_spec(bits_of(*compressed_data)),
{
    let compressed_data_bytes = bitvec_to_bytes(compressed_data);
    let raw = match zlib_decompress(compressed_data_bytes.as_slice()) {
        Ok(raw) => raw,
        Err(_) => {
            return Err(DecodeError::DeserializationFailure);
        },
    };
    match deserialize_game(raw.as_slice()) {
        Ok(game) => Ok(game),
        Err(_) => Err(DecodeError::DeserializationFailure),
    }
}

} // verus!
