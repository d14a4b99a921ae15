//! The static codec with a book of openings: where the text of the moves
//! begins with an opening of the book, the number of the opening stands for
//! its moves, and only the moves after it are written in the Huffman code.

use crate::bits::{
    bits_of, bitvec_append, bitvec_get, bitvec_len, bitvec_push, get_bitvec_slice,
};
use crate::chess::{fen_after, initial_fen, san_at, token_move_at, Position, TokenMove};
use crate::codebook::{huffman_codes, Codebook};
use crate::error::{DecodeError, EncodeError};
use crate::headers::{
    body_start, compress_headers, decompress_headers, decompress_headers_spec, frame_game, framed,
};
use crate::huffman::{
    bits_result, decode_moves_after, decode_moves_from, encode_moves_after, encode_moves_from,
    game_result, moves_from, moves_result, GameEncoder,
};
use crate::openings::{is_last_of_its_text, number_bits, opening_of, texts, OpeningBook};
use crate::pgn_data::{game_text, moves_text, wrapped_text, GameView, PgnData, SanPlusWrapper};
use crate::text::{chars_of, string_of};
use crate::weights::{baseline_weights, get_lichess_hashmap};
use bit_vec::BitVec;
use vstd::prelude::*;

verus! {

/// The least number of moves of an opening of the book.
pub const MIN_OPENING_MOVES: usize = 0;

/// The number of bits in which the number of an opening is written.
pub const BITVEC_LEN: usize = 9;

/// The text has `]` and two line feeds at `i`: the end of the tags.
pub open spec fn is_break_at(text: Seq<char>, i: int) -> bool {
    0 <= i && i + 3 <= text.len() && text[i] == ']' && text[i + 1] == '\n' && text[i + 2] == '\n'
}

/// The first place from `from` on at which the tags end.
pub open spec fn break_index(text: Seq<char>, from: int) -> Option<int>
    decreases text.len() - from,
{
    if from < 0 || from + 3 > text.len() {
        None
    } else if is_break_at(text, from) {
        Some(from)
    } else {
        break_index(text, from + 1)
    }
}

/// The text of the moves in the text of a game: what stands between the
/// first end of the tags and the next, or the end of the text.
pub open spec fn moves_part(text: Seq<char>) -> Option<Seq<char>> {
    match break_index(text, 0) {
        None => None,
        Some(i) => match break_index(text, i + 3) {
            None => Some(text.skip(i + 3)),
            Some(j) => Some(text.subrange(i + 3, j)),
        },
    }
}

/// The first place from `from` on at which the tags end.
fn find_break(text: &Vec<char>, from: usize) -> (r: Option<usize>)
    ensures
        match r {
            Some(i) => break_index(text@, from as int) == Some(i as int),
            None => break_index(text@, from as int).is_none(),
        },
        r matches Some(i) ==> from <= i && i + 3 <= text@.len(),
{
    if text.len() < 3 {
        return None;
    }
    let mut i: usize = from;
    while i <= text.len() - 3
        invariant
            from <= i,
            text@.len() >= 3,
            break_index(text@, from as int) == break_index(text@, i as int),
        decreases text@.len() - i,
    {
        if text[i] == ']' && text[i + 1] == '\n' && text[i + 2] == '\n' {
            return Some(i);
        }
        i = i + 1;
    }
    None
}

/// The characters of a text from `from` up to `to`.
fn copy_range(text: &Vec<char>, from: usize, to: usize) -> (r: Vec<char>)
    requires
        from <= to <= text@.len(),
    ensures
        r@ == text@.subrange(from as int, to as int),
{
    let mut out: Vec<char> = Vec::new();
    let mut i: usize = from;
    while i < to
        invariant
            from <= i <= to <= text@.len(),
            out@ == text@.subrange(from as int, i as int),
        decreases to - i,
    {
        out.push(text[i]);
        i = i + 1;
        assert(out@ =~= text@.subrange(from as int, i as int));
    }
    out
}

/// The text of the moves in the text of a game.
pub fn moves_part_of(text: &Vec<char>) -> (r: Option<Vec<char>>)
    ensures
        match r {
            Some(part) => moves_part(text@) == Some(part@),
            None => moves_part(text@).is_none(),
        },
{
    let len = text.len();
    match find_break(text, 0) {
        None => None,
        Some(i) => match find_break(text, i + 3) {
            None => {
                let part = copy_range(text, i + 3, len);
                assert(text@.skip(i + 3) =~= text@.subrange(i + 3, text@.len() as int));
                Some(part)
            },
            Some(j) => Some(copy_range(text, i + 3, j)),
        },
    }
}

/// The words that end among the first `n` characters, and what follows the
/// last of them: a word ends at a blank.
pub open spec fn tokens_state(s: Seq<char>, n: int) -> (Seq<Seq<char>>, Seq<char>)
    decreases n,
{
    if n <= 0 {
        (Seq::empty(), Seq::empty())
    } else {
        let (done, current) = tokens_state(s, n - 1);
        if s[n - 1] == ' ' {
            (done.push(current), Seq::empty())
        } else {
            (done, current.push(s[n - 1]))
        }
    }
}

/// The words of a text between its blanks; a text without blanks is one
/// word.
pub open spec fn tokens_of(s: Seq<char>) -> Seq<Seq<char>> {
    let (done, current) = tokens_state(s, s.len() as int);
    done.push(current)
}

/// The words of a text between its blanks.
pub fn split_tokens(text: &Vec<char>) -> (r: Vec<Vec<char>>)
    ensures
        texts(r@) == tokens_of(text@),
{
    let mut done: Vec<Vec<char>> = Vec::new();
    let mut current: Vec<char> = Vec::new();
    let mut i: usize = 0;
    assert(texts(done@) =~= Seq::empty());
    while i < text.len()
        invariant
            i <= text@.len(),
            (texts(done@), current@) == tokens_state(text@, i as int),
        decreases text@.len() - i,
    {
        let c = text[i];
        if c == ' ' {
            let ghost before = texts(done@);
            let ghost word = current@;
            done.push(current);
            current = Vec::new();
            assert(texts(done@) =~= before.push(word));
        } else {
            current.push(c);
        }
        i = i + 1;
    }
    let ghost before = texts(done@);
    let ghost word = current@;
    done.push(current);
    assert(texts(done@) =~= before.push(word));
    done
}

/// The position that the words of an opening lead to, and the notation of
/// the moves played, behind the moves `sans`: every word that is a move in
/// algebraic notation is played, the other words are passed over. There is
/// none where a move is not legal.
pub open spec fn replay_from(fen: Seq<char>, tokens: Seq<Seq<char>>, sans: Seq<Seq<char>>) -> Option<
    (Seq<char>, Seq<Seq<char>>),
>
    decreases tokens.len(),
{
    if tokens.len() == 0 {
        Some((fen, sans))
    } else {
        match token_move_at(fen, tokens[0]) {
            TokenMove::NoMove => replay_from(fen, tokens.skip(1), sans),
            TokenMove::Illegal => None,
            TokenMove::Legal(m) => replay_from(
                fen_after(fen, m),
                tokens.skip(1),
                sans.push(san_at(fen, m)),
            ),
        }
    }
}

/// Plays the moves of an opening and gives their notation; `None` where a
/// move of the opening is not legal.
pub fn replay_opening(pos: &mut Position, opening: &str) -> (r: Option<Vec<SanPlusWrapper>>)
    ensures
        match replay_from(old(pos)@, tokens_of(opening@), Seq::empty()) {
            Some((fen, sans)) => r matches Some(played) && moves_text(played@) == sans
                && final(pos)@ == fen,
            None => r.is_none(),
        },
{
    let tokens = split_tokens(&chars_of(opening));
    let mut played: Vec<SanPlusWrapper> = Vec::new();
    let ghost all = tokens_of(opening@);
    let ghost goal = replay_from(pos@, all, Seq::empty());
    let mut i: usize = 0;
    assert(all.skip(0) =~= all);
    assert(moves_text(played@) =~= Seq::empty());
    while i < tokens.len()
        invariant
            i <= tokens@.len(),
            all == texts(tokens@),
            all == tokens_of(opening@),
            goal == replay_from(old(pos)@, all, Seq::empty()),
            goal == replay_from(pos@, all.skip(i as int), moves_text(played@)),
        decreases tokens@.len() - i,
    {
        let ghost rest = all.skip(i as int);
        assert(rest[0] == tokens@[i as int]@);
        assert(rest.skip(1) =~= all.skip(i + 1));
        let word = string_of(&tokens[i]);
        match pos.token_move(word.as_str()) {
            TokenMove::NoMove => {},
            TokenMove::Illegal => {
                return None;
            },
            TokenMove::Legal(m) => {
                let san = pos.play_legal(&m);
                let ghost before = moves_text(played@);
                played.push(SanPlusWrapper(san));
                assert(moves_text(played@) =~= before.push(san@));
            },
        }
        i = i + 1;
    }
    Some(played)
}

/// The number that bits write, most significant bit first.
pub open spec fn bits_value(bits: Seq<bool>) -> nat
    decreases bits.len(),
{
    if bits.len() == 0 {
        0
    } else if bits.last() {
        2 * bits_value(bits.drop_last()) + 1
    } else {
        2 * bits_value(bits.drop_last())
    }
}

/// The number that bits write is no less than the number that the first of
/// them write.
proof fn lemma_value_grows(bits: Seq<bool>, k: int)
    requires
        0 <= k <= bits.len(),
    ensures
        bits_value(bits.take(k)) <= bits_value(bits),
    decreases bits.len() - k,
{
    if k == bits.len() {
        assert(bits.take(k) =~= bits);
    } else {
        lemma_value_grows(bits, k + 1);
        assert(bits.take(k + 1).drop_last() =~= bits.take(k));
    }
}

/// The number that the `count` bits from `from` on write, or `None` where
/// it is greater than any number of an opening can be.
fn read_number(bits: &BitVec, from: usize, count: usize) -> (r: Option<usize>)
    requires
        from + count <= bits_of(*bits).len(),
    ensures
        match r {
            Some(v) => v == bits_value(bits_of(*bits).subrange(from as int, from + count)),
            None => bits_value(bits_of(*bits).subrange(from as int, from + count)) > usize::MAX,
        },
{
    let ghost part = bits_of(*bits).subrange(from as int, from + count);
    let len = bitvec_len(bits);
    let mut value: usize = 0;
    let mut k: usize = 0;
    assert(part.take(0) =~= Seq::empty());
    while k < count
        invariant
            k <= count,
            len == bits_of(*bits).len(),
            from + count <= bits_of(*bits).len(),
            part == bits_of(*bits).subrange(from as int, from + count),
            value == bits_value(part.take(k as int)),
        decreases count - k,
    {
        let bit = match bitvec_get(bits, from + k) {
            Some(bit) => bit,
            None => false,
        };
        proof {
            assert(part.take(k + 1).drop_last() =~= part.take(k as int));
            assert(part.take(k + 1).last() == bit);
            lemma_value_grows(part, k + 1);
        }
        if value > (usize::MAX - 1) / 2 {
            return None;
        }
        value = 2 * value + if bit {
            1
        } else {
            0
        };
        k = k + 1;
    }
    assert(part.take(count as int) =~= part);
    Some(value)
}

/// The bits of the moves of a game: one bit 1 and the moves in the static
/// code where no opening of the book begins the text of the moves; else one
/// bit 0, the number of the opening, and the moves after those of the
/// opening in the static code.
pub open spec fn compress_moves_custom_spec(
    openings: Seq<Seq<char>>,
    code_len: usize,
    game: GameView,
) -> Result<Seq<bool>, EncodeError> {
    let codes = huffman_codes(baseline_weights());
    match moves_part(wrapped_text(game_text(game), 80)) {
        None => Err(EncodeError::SerializationFailure),
        Some(part) => match opening_of(openings, part) {
            None => encode_moves_from(initial_fen(), game.moves, codes, seq![true]),
            Some(j) => if code_len == usize::MAX {
                Err(EncodeError::SerializationFailure)
            } else {
                match replay_from(initial_fen(), tokens_of(openings[j]), Seq::empty()) {
                    None => Err(EncodeError::IllegalInput),
                    Some((fen, sans)) => encode_moves_from(
                        fen,
                        moves_from(game.moves, sans.len() as int),
                        codes,
                        seq![false] + number_bits(j as usize, code_len),
                    ),
                }
            },
        },
    }
}

/// Compresses the moves of a game with the static code and a book of
/// openings.
pub fn compress_moves_custom(pgn: &PgnData, book: &OpeningBook) -> (r: Result<BitVec, EncodeError>)
    requires
        book.wf(),
    ensures
        bits_result(r) == compress_moves_custom_spec(book.openings(), book.code_len(), pgn@),
{
    let pgn_str = pgn.to_string();
    let pgn_moves = match moves_part_of(&chars_of(pgn_str.as_str())) {
        Some(part) => string_of(&part),
        None => {
            return Err(EncodeError::SerializationFailure);
        },
    };
    let mut encoder = GameEncoder::new();
    match book.find(pgn_moves.as_str()) {
        None => {
            bitvec_push(&mut encoder.bit_moves, true);
            assert(bits_of(encoder.bit_moves) =~= seq![true]);
            assert(moves_from(pgn@.moves, 0) =~= pgn@.moves);
            match encode_moves_after(&mut encoder, pgn, 0) {
                Ok(_) => Ok(encoder.bit_moves),
                Err(e) => Err(e),
            }
        },
        Some(j) => {
            if book.bits() == usize::MAX {
                return Err(EncodeError::SerializationFailure);
            }
            let mut number = match book.number_of(j) {
                Some(number) => number,
                None => {
                    return Err(EncodeError::SerializationFailure);
                },
            };
            bitvec_push(&mut encoder.bit_moves, false);
            bitvec_append(&mut encoder.bit_moves, &mut number);
            assert(bits_of(encoder.bit_moves) =~= seq![false] + number_bits(j, book.code_len()));
            let played = match replay_opening(&mut encoder.pos, book.opening(j)) {
                Some(played) => played,
                None => {
                    return Err(EncodeError::IllegalInput);
                },
            };
            match encode_moves_after(&mut encoder, pgn, played.len()) {
                Ok(_) => Ok(encoder.bit_moves),
                Err(e) => Err(e),
            }
        },
    }
}

/// The moves that bits stand for: after a bit 1 the moves in the static
/// code; after a bit 0 the number of an opening, whose moves come first,
/// and the moves after them in the static code. The number must be that of
/// an opening of the book which is the last that reads as it does, and its
/// moves must be legal.
pub open spec fn decompress_moves_custom_spec(
    openings: Seq<Seq<char>>,
    code_len: usize,
    bits: Seq<bool>,
) -> Result<Seq<Seq<char>>, DecodeError> {
    let codes = huffman_codes(baseline_weights());
    if bits.len() == 0 {
        Err(DecodeError::Truncated)
    } else if bits[0] {
        decode_moves_from(initial_fen(), bits.skip(1), codes, Seq::empty())
    } else if bits.len() - 1 < code_len {
        Err(DecodeError::Truncated)
    } else {
        let number = bits_value(bits.subrange(1, 1 + code_len));
        if !is_last_of_its_text(openings, number as int) {
            Err(DecodeError::IndexOutOfRange)
        } else {
            match replay_from(initial_fen(), tokens_of(openings[number as int]), Seq::empty()) {
                None => Err(DecodeError::IndexOutOfRange),
                Some((fen, sans)) => decode_moves_from(fen, bits.skip(1 + code_len), codes, sans),
            }
        }
    }
}

/// Decompresses the moves of a game with the static code and a book of
/// openings.
pub fn decompress_moves_custom(move_bits: &BitVec, book: &OpeningBook) -> (r: Result<
    Vec<SanPlusWrapper>,
    DecodeError,
>)
    requires
        book.wf(),
    ensures
        moves_result(r) == decompress_moves_custom_spec(
            book.openings(),
            book.code_len(),
            bits_of(*move_bits),
        ),
{
    let codebook = Codebook::new(&get_lichess_hashmap());
    let len = bitvec_len(move_bits);
    let mut pos = Position::new();
    match bitvec_get(move_bits, 0) {
        None => Err(DecodeError::Truncated),
        Some(true) => {
            let moves: Vec<SanPlusWrapper> = Vec::new();
            assert(moves_text(moves@) =~= Seq::empty());
            decode_moves_after(&codebook, pos, move_bits, 1, moves)
        },
        Some(false) => {
            let code_len = book.bits();
            let count = book.len();
            if len - 1 < code_len {
                return Err(DecodeError::Truncated);
            }
            let number = match read_number(move_bits, 1, code_len) {
                Some(number) => number,
                None => {
                    return Err(DecodeError::IndexOutOfRange);
                },
            };
            if !book.is_last(number) {
                return Err(DecodeError::IndexOutOfRange);
            }
            let played = match replay_opening(&mut pos, book.opening(number)) {
                Some(played) => played,
                None => {
                    return Err(DecodeError::IndexOutOfRange);
                },
            };
            decode_moves_after(&codebook, pos, move_bits, 1 + code_len, played)
        },
    }
}

/// The bits of a game in the static code with a book of openings: the
/// frame around the bits of its moves.
pub open spec fn compress_pgn_data_custom_spec(
    openings: Seq<Seq<char>>,
    code_len: usize,
    game: GameView,
) -> Result<Seq<bool>, EncodeError> {
    framed(game.headers, compress_moves_custom_spec(openings, code_len, game))
}

/// The game that bits stand for in the static code with a book of
/// openings.
pub open spec fn decompress_pgn_data_custom_spec(
    openings: Seq<Seq<char>>,
    code_len: usize,
    bits: Seq<bool>,
) -> Result<GameView, DecodeError> {
    match decompress_headers_spec(bits) {
        Err(e) => Err(e),
        Ok((headers, start)) => match decompress_moves_custom_spec(
            openings,
            code_len,
            bits.skip(body_start(start)),
        ) {
            Err(e) => Err(e),
            Ok(moves) => Ok(GameView { headers, moves }),
        },
    }
}

/// Compresses a game with the static code and a book of openings: the
/// tags are compressed, the moves are encoded, and the frame is put around
/// both.
pub fn compress_pgn_data_custom(pgn: &PgnData, book: &OpeningBook) -> (r: Result<
    BitVec,
    EncodeError,
>)
    requires
        book.wf(),
    ensures
        bits_result(r) == compress_pgn_data_custom_spec(book.openings(), book.code_len(), pgn@),
{
    let headers = match compress_headers(pgn) {
        Ok(headers) => headers,
        Err(e) => {
            return Err(e);
        },
    };
    let moves = match compress_moves_custom(pgn, book) {
        Ok(moves) => moves,
        Err(e) => {
            return Err(e);
        },
    };
    frame_game(pgn, headers, moves)
}

/// Decompresses a game that the static code with a book of openings
/// compressed.
pub fn decompress_pgn_data_custom(bit_vec: &BitVec, book: &OpeningBook) -> (r: Result<
    PgnData,
    DecodeError,
>)
    requires
        book.wf(),
    ensures
        game_result(r) == decompress_pgn_data_custom_spec(
            book.openings(),
            book.code_len(),
            bits_of(*bit_vec),
        ),
{
    let (headers, start) = match decompress_headers(bit_vec) {
        Ok(found) => found,
        Err(e) => {
            return Err(e);
        },
    };
    let from = if start == 0 {
        1
    } else {
        start
    };
    let move_bits = match get_bitvec_slice(bit_vec, from, bitvec_len(bit_vec)) {
        Ok(move_bits) => move_bits,
        Err(_) => {
            return Err(DecodeError::Truncated);
        },
    };
    assert(bits_of(move_bits) =~= bits_of(*bit_vec).skip(from as int));
    match decompress_moves_custom(&move_bits, book) {
        Ok(moves) => Ok(PgnData { headers, moves }),
        Err(e) => Err(e),
    }
}

} // verus!
