//! The static codec: every move is written as the code word that its rank
//! has in the Huffman code of the baseline weights.

use crate::bits::{bits_of, bitvec_len, bitvec_new, get_bitvec_slice};
use crate::chess::{
    fen_after, initial_fen, legal_moves_at, san_at, san_move_at, ChessMove, Position,
};
use crate::codebook::{
    decodes_to, encode_step_result, first_symbol, huffman_codes, is_prefix, lemma_first_symbol,
    prefix_free, Codebook,
};
use crate::error::{DecodeError, EncodeError};
use crate::headers::{
    block_reads_back, body_start, compress_headers, decompress_headers, decompress_headers_spec,
    frame_game, framed, header_block, lemma_framed,
};
use crate::pgn_data::{moves_text, GameView, PgnData, SanPlusWrapper};
use crate::score_move::{
    generate_moves, get_move_index, lemma_rank_round_trip, rank_of, ranked_moves_at,
};
use crate::weights::{baseline_weights, get_lichess_hashmap};
use bit_vec::BitVec;
use vstd::prelude::*;

verus! {

/// The view of a result that holds a bit string.
pub open spec fn bits_result<E>(r: Result<BitVec, E>) -> Result<Seq<bool>, E> {
    match r {
        Ok(b) => Ok(bits_of(b)),
        Err(e) => Err(e),
    }
}

/// The view of a result that holds a list of moves.
pub open spec fn moves_result<E>(r: Result<Vec<SanPlusWrapper>, E>) -> Result<Seq<Seq<char>>, E> {
    match r {
        Ok(v) => Ok(moves_text(v@)),
        Err(e) => Err(e),
    }
}

/// The view of a result that holds a game.
pub open spec fn game_result<E>(r: Result<PgnData, E>) -> Result<GameView, E> {
    match r {
        Ok(g) => Ok(g@),
        Err(e) => Err(e),
    }
}

/// The symbol that stands for a move text in a position, and the move: the
/// rank of the move among the ranked legal moves. A text that names no legal
/// move is illegal input; a rank above 255 overflows the alphabet.
pub open spec fn encode_symbol(fen: Seq<char>, san: Seq<char>) -> Result<
    (u8, ChessMove),
    EncodeError,
> {
    match san_move_at(fen, san) {
        None => Err(EncodeError::IllegalInput),
        Some(m) => match rank_of(ranked_moves_at(fen), m) {
            None => Err(EncodeError::IllegalInput),
            Some(i) => if i > 255 {
                Err(EncodeError::IndexOverflow)
            } else {
                Ok((i as u8, m))
            },
        },
    }
}

/// The symbol that stands for a move text in a position, and the move.
pub fn encode_symbol_at(pos: &Position, san: &str) -> (r: Result<(u8, ChessMove), EncodeError>)
    ensures
        r == encode_symbol(pos@, san@),
        r matches Ok((_, m)) ==> m.wf() && legal_moves_at(pos@).contains(m),
{
    match pos.san_to_move(san) {
        None => Err(EncodeError::IllegalInput),
        Some(m) => match get_move_index(pos, &m) {
            None => Err(EncodeError::IllegalInput),
            Some(i) => if i > 255 {
                Err(EncodeError::IndexOverflow)
            } else {
                Ok((i as u8, m))
            },
        },
    }
}

/// The bits of a list of moves played from a position, written behind
/// `acc` with one code: move by move the code word of the rank.
pub open spec fn encode_moves_from(
    fen: Seq<char>,
    sans: Seq<Seq<char>>,
    codes: Map<u8, Seq<bool>>,
    acc: Seq<bool>,
) -> Result<Seq<bool>, EncodeError>
    decreases sans.len(),
{
    if sans.len() == 0 {
        Ok(acc)
    } else {
        match encode_symbol(fen, sans[0]) {
            Err(e) => Err(e),
            Ok((s, m)) => match encode_step_result(codes, acc, s) {
                Err(e) => Err(e),
                Ok(_) => encode_moves_from(fen_after(fen, m), sans.skip(1), codes, acc + codes[s]),
            },
        }
    }
}

/// The bits of the moves of a game in the static code.
pub open spec fn compress_moves_spec(sans: Seq<Seq<char>>) -> Result<Seq<bool>, EncodeError> {
    encode_moves_from(initial_fen(), sans, huffman_codes(baseline_weights()), Seq::empty())
}

/// What encoding one move comes to: the rank of the move is looked up among
/// the ranked legal moves, and its code word is written behind `bits`. A
/// move that is not legal is illegal input.
pub open spec fn encode_move(
    fen: Seq<char>,
    bits: Seq<bool>,
    codes: Map<u8, Seq<bool>>,
    m: ChessMove,
) -> Result<(Seq<char>, Seq<bool>), EncodeError> {
    match rank_of(ranked_moves_at(fen), m) {
        None => Err(EncodeError::IllegalInput),
        Some(i) => if i > 255 {
            Err(EncodeError::IndexOverflow)
        } else {
            match encode_step_result(codes, bits, i as u8) {
                Err(e) => Err(e),
                Ok(_) => Ok((fen_after(fen, m), bits + codes[i as u8])),
            }
        },
    }
}

/// Encodes the moves of a game one by one with the Huffman code of the
/// baseline weights: it holds the position reached and the bits written.
pub struct GameEncoder {
    pub book: Codebook,
    pub pos: Position,
    pub bit_moves: BitVec,
}

impl GameEncoder {
    /// The code with which the moves are written.
    pub open spec fn codes(&self) -> Map<u8, Seq<bool>> {
        self.book.codes()
    }

    /// An encoder at the starting position that has written nothing.
    pub fn new() -> (r: GameEncoder)
        ensures
            r.pos@ == initial_fen(),
            bits_of(r.bit_moves) == Seq::<bool>::empty(),
            r.codes() == huffman_codes(baseline_weights()),
            prefix_free(r.codes()),
            forall|s: u8| r.codes().contains_key(s),
    {
        GameEncoder {
            book: Codebook::new(&get_lichess_hashmap()),
            pos: Position::new(),
            bit_moves: bitvec_new(),
        }
    }

    /// Encodes a move and plays it. Where the move cannot be encoded, the
    /// position and the bits stay as they are.
    pub fn encode(&mut self, m: &ChessMove) -> (r: Result<(), EncodeError>)
        ensures
            final(self).codes() == old(self).codes(),
            match encode_move(old(self).pos@, bits_of(old(self).bit_moves), old(self).codes(), *m) {
                Ok((fen, bits)) => r.is_ok() && final(self).pos@ == fen && bits_of(
                    final(self).bit_moves,
                ) == bits,
                Err(e) => r == Err::<(), EncodeError>(e) && final(self).pos@ == old(self).pos@
                    && bits_of(final(self).bit_moves) == bits_of(old(self).bit_moves),
            },
    {
        match get_move_index(&self.pos, m) {
            Some(i) => {
                if i > 255 {
                    return Err(EncodeError::IndexOverflow);
                }
                match self.book.encode(&mut self.bit_moves, i as u8) {
                    Ok(_) => {},
                    Err(e) => {
                        return Err(e);
                    },
                }
                self.pos.play_unchecked(m);
                Ok(())
            },
            None => Err(EncodeError::IllegalInput),
        }
    }
}

/// The moves of a list from the place `from` on; none where the list is
/// shorter.
pub open spec fn moves_from(sans: Seq<Seq<char>>, from: int) -> Seq<Seq<char>> {
    if 0 <= from <= sans.len() {
        sans.skip(from)
    } else {
        Seq::empty()
    }
}

/// Encodes the moves of a game from the place `from` on, behind what the
/// encoder has written.
pub fn encode_moves_after(encoder: &mut GameEncoder, pgn: &PgnData, from: usize) -> (r: Result<
    (),
    EncodeError,
>)
    ensures
        final(encoder).codes() == old(encoder).codes(),
        (match r {
            Ok(_) => Ok::<Seq<bool>, EncodeError>(bits_of(final(encoder).bit_moves)),
            Err(e) => Err(e),
        }) == encode_moves_from(
            old(encoder).pos@,
            moves_from(pgn@.moves, from as int),
            old(encoder).codes(),
            bits_of(old(encoder).bit_moves),
        ),
{
    let ghost codes = encoder.codes();
    let ghost sans = pgn@.moves;
    let ghost goal = encode_moves_from(
        encoder.pos@,
        moves_from(sans, from as int),
        codes,
        bits_of(encoder.bit_moves),
    );
    if from >= pgn.moves.len() {
        assert(moves_from(sans, from as int).len() == 0);
        return Ok(());
    }
    let mut i: usize = from;
    while i < pgn.moves.len()
        invariant
            from <= i <= pgn.moves@.len(),
            sans == pgn@.moves,
            codes == encoder.codes(),
            codes == old(encoder).codes(),
            goal == encode_moves_from(
                old(encoder).pos@,
                moves_from(sans, from as int),
                codes,
                bits_of(old(encoder).bit_moves),
            ),
            goal == encode_moves_from(
                encoder.pos@,
                sans.skip(i as int),
                codes,
                bits_of(encoder.bit_moves),
            ),
        decreases pgn.moves@.len() - i,
    {
        let ghost rest = sans.skip(i as int);
        assert(rest[0] == pgn.moves@[i as int]@);
        assert(rest.skip(1) =~= sans.skip(i + 1));
        let m = match encoder.pos.san_to_move(pgn.moves[i].0.as_str()) {
            Some(m) => m,
            None => {
                return Err(EncodeError::IllegalInput);
            },
        };
        match encoder.encode(&m) {
            Ok(_) => {},
            Err(e) => {
                return Err(e);
            },
        }
        i = i + 1;
    }
    Ok(())
}

/// Encodes the moves of a game with the Huffman code of the baseline
/// weights.
pub fn compress_moves(pgn: &PgnData) -> (r: Result<BitVec, EncodeError>)
    ensures
        bits_result(r) == compress_moves_spec(pgn@.moves),
        r matches Ok(b) ==> moves_read_back(pgn@.moves, bits_of(b)) && bits_of(b).len()
            >= pgn@.moves.len(),
{
    let mut encoder = GameEncoder::new();
    let ghost codes = encoder.codes();
    let ghost sans = pgn@.moves;
    assert(sans.skip(0) =~= sans);
    match encode_moves_after(&mut encoder, pgn, 0) {
        Ok(_) => {},
        Err(e) => {
            return Err(e);
        },
    }
    proof {
        lemma_no_empty_word(codes);
        lemma_moves_length(initial_fen(), sans, codes, Seq::empty());
        if canonical_moves(initial_fen(), sans) {
            lemma_moves_round_trip(initial_fen(), sans, codes, Seq::empty(), Seq::empty());
            assert(bits_of(encoder.bit_moves).skip(0) =~= bits_of(encoder.bit_moves));
            assert(Seq::<Seq<char>>::empty() + sans =~= sans);
        }
    }
    Ok(encoder.bit_moves)
}

/// The moves that bits stand for from a position on, behind the moves
/// `acc`: symbol by symbol the move of that rank, until the bits begin with
/// no code word any more. A rank that no legal move has is out of range.
pub open spec fn decode_moves_from(
    fen: Seq<char>,
    bits: Seq<bool>,
    codes: Map<u8, Seq<bool>>,
    acc: Seq<Seq<char>>,
) -> Result<Seq<Seq<char>>, DecodeError>
    decreases bits.len(),
{
    match first_symbol(codes, bits) {
        None => Ok(acc),
        Some(s) => {
            let ranked = ranked_moves_at(fen);
            if s >= ranked.len() {
                Err(DecodeError::IndexOutOfRange)
            } else if codes[s].len() == 0 {
                Err(DecodeError::Truncated)
            } else {
                decode_moves_from(
                    fen_after(fen, ranked[s as int]),
                    bits.skip(codes[s].len() as int),
                    codes,
                    acc.push(san_at(fen, ranked[s as int])),
                )
            }
        },
    }
}

/// The moves that bits stand for in the static code.
pub open spec fn decompress_moves_spec(bits: Seq<bool>) -> Result<Seq<Seq<char>>, DecodeError> {
    decode_moves_from(initial_fen(), bits, huffman_codes(baseline_weights()), Seq::empty())
}

/// Decodes moves from the bits that begin at `start`, played from a
/// position on and behind the moves `moves`.
pub fn decode_moves_after(
    book: &Codebook,
    pos: Position,
    move_bits: &BitVec,
    start: usize,
    moves: Vec<SanPlusWrapper>,
) -> (r: Result<Vec<SanPlusWrapper>, DecodeError>)
    requires
        book.wf(),
        start <= bits_of(*move_bits).len(),
    ensures
        moves_result(r) == decode_moves_from(
            pos@,
            bits_of(*move_bits).skip(start as int),
            book.codes(),
            moves_text(moves@),
        ),
{
    let mut now = pos;
    let mut out = moves;
    let mut at = start;
    let len = bitvec_len(move_bits);
    let ghost codes = book.codes();
    let ghost bits = bits_of(*move_bits);
    loop
        invariant
            at <= len,
            len == bits.len(),
            bits == bits_of(*move_bits),
            codes == book.codes(),
            book.wf(),
            decode_moves_from(pos@, bits.skip(start as int), codes, moves_text(moves@))
                == decode_moves_from(now@, bits.skip(at as int), codes, moves_text(out@)),
        decreases len - at,
    {
        let symbol = match book.decode_at(move_bits, at) {
            Some(symbol) => symbol,
            None => {
                return Ok(out);
            },
        };
        let legal_moves = generate_moves(&now);
        let index = symbol as usize;
        if index >= legal_moves.len() {
            return Err(DecodeError::IndexOutOfRange);
        }
        let code_len = match book.code_of(symbol) {
            Some(code) => bitvec_len(&code),
            None => 0,
        };
        if code_len == 0 {
            return Err(DecodeError::Truncated);
        }
        let m = legal_moves[index];
        let san = now.play_legal(&m);
        proof {
            let before = moves_text(out@);
            assert(moves_text(out@.push(SanPlusWrapper(san))) =~= before.push(san@));
            assert(bits.skip(at as int).skip(code_len as int) =~= bits.skip(at + code_len));
        }
        out.push(SanPlusWrapper(san));
        at = at + code_len;
    }
}

/// Decodes the moves of a game with the Huffman code of the baseline
/// weights.
pub fn decompress_moves(move_bits: &BitVec) -> (r: Result<Vec<SanPlusWrapper>, DecodeError>)
    ensures
        moves_result(r) == decompress_moves_spec(bits_of(*move_bits)),
{
    let book = Codebook::new(&get_lichess_hashmap());
    let moves: Vec<SanPlusWrapper> = Vec::new();
    assert(bits_of(*move_bits).skip(0) =~= bits_of(*move_bits));
    assert(moves_text(moves@) =~= Seq::empty());
    decode_moves_after(&book, Position::new(), move_bits, 0, moves)
}

/// The bits of a game in the static code: the frame around the bits of its
/// moves.
pub open spec fn compress_pgn_data_spec(game: GameView) -> Result<Seq<bool>, EncodeError> {
    framed(game.headers, compress_moves_spec(game.moves))
}

/// The game that bits stand for in the static code.
pub open spec fn decompress_pgn_data_spec(bits: Seq<bool>) -> Result<GameView, DecodeError> {
    match decompress_headers_spec(bits) {
        Err(e) => Err(e),
        Ok((headers, start)) => match decompress_moves_spec(bits.skip(body_start(start))) {
            Err(e) => Err(e),
            Ok(moves) => Ok(GameView { headers, moves }),
        },
    }
}

/// Every move text of the list is the notation that the rules engine gives
/// to the move it names, in the position that the moves before it lead to.
pub open spec fn canonical_moves(fen: Seq<char>, sans: Seq<Seq<char>>) -> bool
    decreases sans.len(),
{
    sans.len() == 0 || (match san_move_at(fen, sans[0]) {
        None => false,
        Some(m) => san_at(fen, m) == sans[0] && canonical_moves(fen_after(fen, m), sans.skip(1)),
    })
}

/// Moves in the notation of the rules engine are what their bits decode to.
pub open spec fn moves_read_back(sans: Seq<Seq<char>>, bits: Seq<bool>) -> bool {
    canonical_moves(initial_fen(), sans) ==> decompress_moves_spec(bits) == Ok::<
        Seq<Seq<char>>,
        DecodeError,
    >(sans)
}

/// Every code word of the code has a bit.
pub open spec fn no_empty_word(codes: Map<u8, Seq<bool>>) -> bool {
    forall|s: u8| codes.contains_key(s) ==> (#[trigger] codes[s]).len() > 0
}

/// A code for every rank from 0 to 255 that is prefix-free has no empty
/// code word.
pub proof fn lemma_no_empty_word(codes: Map<u8, Seq<bool>>)
    requires
        prefix_free(codes),
        forall|s: u8| codes.contains_key(s),
    ensures
        no_empty_word(codes),
{
    assert forall|s: u8| codes.contains_key(s) implies (#[trigger] codes[s]).len() > 0 by {
        let other: u8 = if s == 0 {
            1
        } else {
            0
        };
        crate::codebook::lemma_code_words_not_empty(codes, s, other);
    }
}

/// Decoding what was encoded gives the moves back: where a list of moves in
/// the notation of the rules engine is encoded behind `acc_bits` with a
/// prefix-free code without an empty word, the bits that were added decode,
/// from the same position on and behind `acc_moves`, to the same moves.
pub proof fn lemma_moves_round_trip(
    fen: Seq<char>,
    sans: Seq<Seq<char>>,
    codes: Map<u8, Seq<bool>>,
    acc_bits: Seq<bool>,
    acc_moves: Seq<Seq<char>>,
)
    requires
        prefix_free(codes),
        no_empty_word(codes),
        canonical_moves(fen, sans),
        encode_moves_from(fen, sans, codes, acc_bits).is_ok(),
    ensures
        is_prefix(acc_bits, encode_moves_from(fen, sans, codes, acc_bits).unwrap()),
        decode_moves_from(
            fen,
            encode_moves_from(fen, sans, codes, acc_bits).unwrap().skip(acc_bits.len() as int),
            codes,
            acc_moves,
        ) == Ok::<Seq<Seq<char>>, DecodeError>(acc_moves + sans),
    decreases sans.len(),
{
    let bits = encode_moves_from(fen, sans, codes, acc_bits).unwrap();
    if sans.len() == 0 {
        assert(bits.take(acc_bits.len() as int) =~= acc_bits);
        let tail = bits.skip(acc_bits.len() as int);
        assert(tail.len() == 0);
        assert forall|s: u8| !decodes_to(codes, tail, s) by {}
        assert(acc_moves + sans =~= acc_moves);
    } else {
        let (s, m) = encode_symbol(fen, sans[0]).unwrap();
        let word = codes[s];
        let next_fen = fen_after(fen, m);
        let next_acc = acc_bits + word;
        let next_moves = acc_moves.push(sans[0]);
        lemma_moves_round_trip(next_fen, sans.skip(1), codes, next_acc, next_moves);
        assert(bits == encode_moves_from(next_fen, sans.skip(1), codes, next_acc).unwrap());
        assert(bits.take(next_acc.len() as int) == next_acc);
        assert(bits.take(acc_bits.len() as int) =~= next_acc.take(acc_bits.len() as int));
        assert(next_acc.take(acc_bits.len() as int) =~= acc_bits);
        let tail = bits.skip(acc_bits.len() as int);
        assert(tail.take(word.len() as int) =~= word) by {
            assert forall|k: int| 0 <= k < word.len() implies tail[k] == word[k] by {
                assert(bits.take(next_acc.len() as int)[acc_bits.len() + k] == next_acc[
                    acc_bits.len() + k
                ]);
            }
        }
        assert(decodes_to(codes, tail, s));
        lemma_first_symbol(codes, tail, s);
        let ranked = ranked_moves_at(fen);
        assert(ranked[s as int] == m && s < ranked.len()) by {
            let i = rank_of(ranked, m).unwrap();
            if ranked.contains(m) {
                lemma_rank_round_trip(ranked, m);
            }
        }
        assert(tail.skip(word.len() as int) =~= bits.skip(next_acc.len() as int));
        assert(next_moves + sans.skip(1) =~= acc_moves + sans);
    }
}

/// Every move adds at least one bit: what is encoded behind `acc` with a
/// code without an empty word is longer than `acc` by the number of the
/// moves or more.
pub proof fn lemma_moves_length(
    fen: Seq<char>,
    sans: Seq<Seq<char>>,
    codes: Map<u8, Seq<bool>>,
    acc: Seq<bool>,
)
    requires
        no_empty_word(codes),
        encode_moves_from(fen, sans, codes, acc).is_ok(),
    ensures
        encode_moves_from(fen, sans, codes, acc).unwrap().len() >= acc.len() + sans.len(),
    decreases sans.len(),
{
    if sans.len() > 0 {
        let (s, m) = encode_symbol(fen, sans[0]).unwrap();
        lemma_moves_length(fen_after(fen, m), sans.skip(1), codes, acc + codes[s]);
    }
}

/// A game that the static code compresses into `bits` is the game that
/// `bits` decompress to, where the block of its tags reads back and the
/// bits of its moves decode to its moves.
pub proof fn lemma_round_trip(game: GameView, bits: Seq<bool>)
    requires
        compress_pgn_data_spec(game) == Ok::<Seq<bool>, EncodeError>(bits),
        block_reads_back(game.headers, header_block(game.headers).unwrap()),
        decompress_moves_spec(compress_moves_spec(game.moves).unwrap()) == Ok::<
            Seq<Seq<char>>,
            DecodeError,
        >(game.moves),
    ensures
        decompress_pgn_data_spec(bits) == Ok::<GameView, DecodeError>(game),
{
    lemma_framed(game.headers, compress_moves_spec(game.moves).unwrap());
}

/// Compresses a game with the static code: the tags are compressed, the
/// moves are encoded, and the frame is put around both. Of what comes out,
/// the first bit tells whether the tags are empty, every move has at least
/// one bit, and a game whose moves are written as the rules engine writes
/// them is what it decompresses to.
pub fn compress_pgn_data(pgn: &PgnData) -> (r: Result<BitVec, EncodeError>)
    ensures
        bits_result(r) == compress_pgn_data_spec(pgn@),
        r matches Ok(b) ==> {
            &&& bits_of(b).len() >= 1 + pgn@.moves.len()
            &&& bits_of(b)[0] == pgn@.headers.is_empty()
            &&& !pgn@.headers.is_empty() ==> bits_of(b).len() >= 16 + pgn@.moves.len()
            &&& canonical_moves(initial_fen(), pgn@.moves) ==> decompress_pgn_data_spec(bits_of(b))
                == Ok::<GameView, DecodeError>(pgn@)
        },
{
    let headers = match compress_headers(pgn) {
        Ok(headers) => headers,
        Err(e) => {
            return Err(e);
        },
    };
    let moves = match compress_moves(pgn) {
        Ok(moves) => moves,
        Err(e) => {
            return Err(e);
        },
    };
    let ghost body = bits_of(moves);
    let r = frame_game(pgn, headers, moves);
    proof {
        if r.is_ok() {
            lemma_framed(pgn@.headers, body);
            if canonical_moves(initial_fen(), pgn@.moves) {
                lemma_round_trip(pgn@, bits_of(r.unwrap()));
            }
        }
    }
    r
}

/// Decompresses a game that the static code compressed.
pub fn decompress_pgn_data(bit_vec: &BitVec) -> (r: Result<PgnData, DecodeError>)
    ensures
        game_result(r) == decompress_pgn_data_spec(bits_of(*bit_vec)),
{
    let (headers, start) = match decompress_headers(bit_vec) {
        Ok(found) => found,
        Err(e) => {
            return Err(e);
        },
    };
    let from = if start == 0 {
        1
    } else {
        start
    };
    let move_bits = match get_bitvec_slice(bit_vec, from, bitvec_len(bit_vec)) {
        Ok(move_bits) => move_bits,
        Err(_) => {
            return Err(DecodeError::Truncated);
        },
    };
    assert(bits_of(move_bits) =~= bits_of(*bit_vec).skip(from as int));
    match decompress_moves(&move_bits) {
        Ok(moves) => Ok(PgnData { headers, moves }),
        Err(e) => Err(e),
    }
}

} // verus!
