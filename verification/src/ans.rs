//! What a coder of whole rank sequences needs around it: the ranks of the
//! moves of a game, the moves of ranks, and bit strings as 32-bit words.

use crate::bits::{bit_or_pad, bits_of, bitvec_get, bitvec_len, bitvec_new, bitvec_push};
use crate::chess::{fen_after, initial_fen, san_at, Position};
use crate::error::{DecodeError, EncodeError};
use crate::huffman::{encode_symbol, encode_symbol_at};
use crate::pgn_data::{PgnData, SanPlusWrapper};
use crate::score_move::{generate_moves, ranked_moves_at};
use bit_vec::BitVec;
use vstd::prelude::*;

verus! {

/// The rank that marks the end of the moves.
pub const END_OF_MOVES: usize = 255;

/// Bit `i` of a word, counted from the least significant bit.
pub open spec fn word_bit(word: u32, i: u32) -> bool {
    word & (1u32 << i) != 0
}

/// The bits of a list of words: 32 for each word, least significant first.
pub open spec fn words_to_bits(words: Seq<u32>) -> Seq<bool> {
    Seq::new(words.len() * 32, |k: int| word_bit(words[k / 32], (k % 32) as u32))
}

/// Converts a list of 32-bit words to a bit string.
pub fn vec_u32_to_bit_vec(vec: &Vec<u32>) -> (r: BitVec)
    requires
        vec@.len() * 32 <= usize::MAX,
    ensures
        bits_of(r) == words_to_bits(vec@),
{
    let mut bit_vec = bitvec_new();
    let mut k: usize = 0;
    while k < vec.len()
        invariant
            k <= vec@.len(),
            vec@.len() * 32 <= usize::MAX,
            bits_of(bit_vec).len() == k * 32,
            forall|j: int|
                0 <= j < k * 32 ==> bits_of(bit_vec)[j] == word_bit(vec@[j / 32], (j % 32) as u32),
        decreases vec@.len() - k,
    {
        let num = vec[k];
        let mut i: u32 = 0;
        while i < 32
            invariant
                i <= 32,
                k < vec@.len(),
                num == vec@[k as int],
                vec@.len() * 32 <= usize::MAX,
                bits_of(bit_vec).len() == k * 32 + i,
                forall|j: int|
                    0 <= j < k * 32 + i ==> bits_of(bit_vec)[j] == word_bit(
                        vec@[j / 32],
                        (j % 32) as u32,
                    ),
            decreases 32 - i,
        {
            bitvec_push(&mut bit_vec, (num & (1u32 << i)) != 0);
            i = i + 1;
        }
        k = k + 1;
    }
    assert(bits_of(bit_vec) =~= words_to_bits(vec@));
    bit_vec
}

/// The word whose bits, least significant first, are the first `i` of the
/// bits from `32 * k` on, with `false` past the end of the bits.
pub open spec fn word_prefix(bits: Seq<bool>, k: int, i: int) -> u32
    decreases i,
{
    if i <= 0 {
        0
    } else if bit_or_pad(bits, 32 * k + i - 1) {
        word_prefix(bits, k, i - 1) | (1u32 << ((i - 1) as u32))
    } else {
        word_prefix(bits, k, i - 1)
    }
}

/// The words of a bit string: 32 bits to a word, least significant first,
/// the last word filled up with zeros.
pub open spec fn bits_to_words(bits: Seq<bool>) -> Seq<u32> {
    Seq::new(((bits.len() + 31) / 32) as nat, |k: int| word_prefix(bits, k, 32))
}

/// Converts a bit string to a list of 32-bit words.
pub fn bit_vec_to_vec_u32(bit_vec: &BitVec) -> (r: Vec<u32>)
    ensures
        r@ == bits_to_words(bits_of(*bit_vec)),
{
    let len = bitvec_len(bit_vec);
    let words = len / 32 + if len % 32 == 0 {
        0
    } else {
        1
    };
    let mut vec: Vec<u32> = Vec::new();
    let mut k: usize = 0;
    while k < words
        invariant
            k <= words,
            len == bits_of(*bit_vec).len(),
            words == (len + 31) / 32,
            vec@.len() == k,
            forall|j: int| 0 <= j < k ==> vec@[j] == word_prefix(bits_of(*bit_vec), j, 32),
        decreases words - k,
    {
        let mut num: u32 = 0;
        let mut i: u32 = 0;
        while i < 32
            invariant
                i <= 32,
                k < words,
                len == bits_of(*bit_vec).len(),
                words == (len + 31) / 32,
                num == word_prefix(bits_of(*bit_vec), k as int, i as int),
            decreases 32 - i,
        {
            let at = k * 32 + i as usize;
            let bit = match bitvec_get(bit_vec, at) {
                Some(bit) => bit,
                None => false,
            };
            if bit {
                num = num | (1u32 << i);
            }
            i = i + 1;
        }
        vec.push(num);
        k = k + 1;
    }
    assert(vec@ =~= bits_to_words(bits_of(*bit_vec)));
    vec
}

/// The ranks of a list of moves played from a position, behind the ranks
/// `acc`.
pub open spec fn indices_from(fen: Seq<char>, sans: Seq<Seq<char>>, acc: Seq<usize>) -> Result<
    Seq<usize>,
    EncodeError,
>
    decreases sans.len(),
{
    if sans.len() == 0 {
        Ok(acc)
    } else {
        match encode_symbol(fen, sans[0]) {
            Err(e) => Err(e),
            Ok((s, m)) => indices_from(fen_after(fen, m), sans.skip(1), acc.push(s as usize)),
        }
    }
}

/// The ranks of the moves of a game.
pub fn move_indices(pgn: &PgnData) -> (r: Result<Vec<usize>, EncodeError>)
    ensures
        (match r {
            Ok(v) => Ok::<Seq<usize>, EncodeError>(v@),
            Err(e) => Err(e),
        }) == indices_from(initial_fen(), pgn@.moves, Seq::empty()),
{
    let mut pos = Position::new();
    let mut indices: Vec<usize> = Vec::new();
    let ghost sans = pgn@.moves;
    let mut i: usize = 0;
    assert(sans.skip(0) =~= sans);
    while i < pgn.moves.len()
        invariant
            i <= pgn.moves@.len(),
            sans == pgn@.moves,
            indices_from(initial_fen(), sans, Seq::empty()) == indices_from(
                pos@,
                sans.skip(i as int),
                indices@,
            ),
        decreases pgn.moves@.len() - i,
    {
        let ghost rest = sans.skip(i as int);
        assert(rest[0] == pgn.moves@[i as int]@);
        assert(rest.skip(1) =~= sans.skip(i + 1));
        let (symbol, m) = match encode_symbol_at(&pos, pgn.moves[i].0.as_str()) {
            Ok(found) => found,
            Err(e) => {
                return Err(e);
            },
        };
        indices.push(symbol as usize);
        pos.play_unchecked(&m);
        i = i + 1;
    }
    Ok(indices)
}

/// Plays the move of a given rank and gives its notation. The rank 255
/// marks the end of the moves and leaves the position as it is, and so
/// does a rank that no legal move has, which is an error.
pub fn next_move(pos: &mut Position, index: usize) -> (r: Result<
    Option<SanPlusWrapper>,
    DecodeError,
>)
    ensures
        index == END_OF_MOVES ==> r == Ok::<Option<SanPlusWrapper>, DecodeError>(None)
            && final(pos)@ == old(pos)@,
        index != END_OF_MOVES && index >= ranked_moves_at(old(pos)@).len() ==> r == Err::<
            Option<SanPlusWrapper>,
            DecodeError,
        >(DecodeError::IndexOutOfRange) && final(pos)@ == old(pos)@,
        index != END_OF_MOVES && index < ranked_moves_at(old(pos)@).len() ==> (r matches Ok(
            Some(san),
        ) && san@ == san_at(old(pos)@, ranked_moves_at(old(pos)@)[index as int])) && final(pos)@
            == fen_after(old(pos)@, ranked_moves_at(old(pos)@)[index as int]),
{
    let legal_moves = generate_moves(pos);
    if index == END_OF_MOVES {
        return Ok(None);
    }
    if index >= legal_moves.len() {
        return Err(DecodeError::IndexOutOfRange);
    }
    let m = legal_moves[index];
    let san = pos.play_legal(&m);
    Ok(Some(SanPlusWrapper(san)))
}

} // verus!
