//! The adaptive codec: each side has a weight table of its own, which
//! starts as the baseline and is raised around every rank that the side
//! plays; every move is written with the Huffman code of the table as it
//! stands for the side that moves.

use crate::bits::{bits_of, bitvec_len, bitvec_new, get_bitvec_slice};
use crate::chess::{fen_after, initial_fen, legal_moves_at, san_at, Position};
use crate::codebook::{
    decodes_to, encode_step_result, first_symbol, huffman_codes, is_prefix, lemma_first_symbol,
    prefix_free, Codebook,
};
use crate::error::{DecodeError, EncodeError};
use crate::headers::{
    block_reads_back, body_start, compress_headers, decompress_headers, decompress_headers_spec,
    frame_game, framed, header_block, lemma_framed,
};
use crate::huffman::{
    bits_result, canonical_moves, encode_symbol, encode_symbol_at, game_result,
    lemma_no_empty_word, moves_result,
};
use crate::pgn_data::{moves_text, GameView, PgnData, SanPlusWrapper};
use crate::score_move::{
    generate_moves, lemma_rank_round_trip, lemma_ranked_moves, ranked_moves_at,
};
use crate::weights::{baseline_weights, get_lichess_hashmap, is_weight_table};
use bit_vec::BitVec;
use std::collections::HashMap;
use vstd::prelude::*;

verus! {

/// The bumps of the canonical kernel: a bell curve over the distance from
/// the rank that was played, rounded down to whole weights.
pub const GAUSSIAN_BUMPS: [i64; 256] = [
    742325, 687941, 547550, 374292, 219742, 110797, 47980, 17844, 5699, 1563, 368, 74, 12, 1, 0, 0,
    0, 0, 0, 0, 0, 0, 0, 0, 0, 0, 0, 0, 0, 0, 0, 0,
    0, 0, 0, 0, 0, 0, 0, 0, 0, 0, 0, 0, 0, 0, 0, 0,
    0, 0, 0, 0, 0, 0, 0, 0, 0, 0, 0, 0, 0, 0, 0, 0,
    0, 0, 0, 0, 0, 0, 0, 0, 0, 0, 0, 0, 0, 0, 0, 0,
    0, 0, 0, 0, 0, 0, 0, 0, 0, 0, 0, 0, 0, 0, 0, 0,
    0, 0, 0, 0, 0, 0, 0, 0, 0, 0, 0, 0, 0, 0, 0, 0,
    0, 0, 0, 0, 0, 0, 0, 0, 0, 0, 0, 0, 0, 0, 0, 0,
    0, 0, 0, 0, 0, 0, 0, 0, 0, 0, 0, 0, 0, 0, 0, 0,
    0, 0, 0, 0, 0, 0, 0, 0, 0, 0, 0, 0, 0, 0, 0, 0,
    0, 0, 0, 0, 0, 0, 0, 0, 0, 0, 0, 0, 0, 0, 0, 0,
    0, 0, 0, 0, 0, 0, 0, 0, 0, 0, 0, 0, 0, 0, 0, 0,
    0, 0, 0, 0, 0, 0, 0, 0, 0, 0, 0, 0, 0, 0, 0, 0,
    0, 0, 0, 0, 0, 0, 0, 0, 0, 0, 0, 0, 0, 0, 0, 0,
    0, 0, 0, 0, 0, 0, 0, 0, 0, 0, 0, 0, 0, 0, 0, 0,
    0, 0, 0, 0, 0, 0, 0, 0, 0, 0, 0, 0, 0, 0, 0, 0,
];

/// What is added to the weight of a rank at each distance from the rank
/// that was played: 256 bumps, for the distances from 0 to 255. A bump
/// below zero lowers a weight.
pub struct GaussianKernel {
    bumps: Vec<i64>,
}

impl View for GaussianKernel {
    type V = Seq<i64>;

    closed spec fn view(&self) -> Seq<i64> {
        self.bumps@
    }
}

impl GaussianKernel {
    /// A kernel has a bump for every distance.
    pub closed spec fn wf(&self) -> bool {
        self.bumps@.len() == 256
    }

    /// The kernel with the given bumps, if they are 256.
    pub fn new(bumps: Vec<i64>) -> (r: Option<GaussianKernel>)
        ensures
            r.is_some() == (bumps@.len() == 256),
            r matches Some(k) ==> k.wf() && k@ == bumps@,
    {
        if bumps.len() == 256 {
            Some(GaussianKernel { bumps })
        } else {
            None
        }
    }

    /// The canonical kernel.
    pub fn canonical() -> (r: GaussianKernel)
        ensures
            r.wf(),
            r@ == GAUSSIAN_BUMPS@,
    {
        let mut bumps: Vec<i64> = Vec::new();
        let mut i: usize = 0;
        while i < 256
            invariant
                i <= 256,
                bumps@.len() == i,
                forall|j: int| 0 <= j < i ==> bumps@[j] == GAUSSIAN_BUMPS[j],
            decreases 256 - i,
        {
            bumps.push(GAUSSIAN_BUMPS[i]);
            i = i + 1;
        }
        assert(bumps@ =~= GAUSSIAN_BUMPS@);
        GaussianKernel { bumps }
    }

    /// The bump at a distance.
    pub fn bump(&self, distance: u8) -> (r: i64)
        requires
            self.wf(),
        ensures
            r == self@[distance as int],
    {
        self.bumps[distance as usize]
    }
}

/// How far two ranks are apart.
pub open spec fn distance(a: u8, b: u8) -> int {
    if a >= b {
        a - b
    } else {
        b - a
    }
}

/// A weight raised by a bump: their sum, but no less than zero and no more
/// than the greatest weight.
pub open spec fn saturating_sum(a: u64, b: i64) -> u64 {
    if a + b < 0 {
        0
    } else if a + b > u64::MAX {
        u64::MAX
    } else {
        (a + b) as u64
    }
}

/// A weight raised by a bump.
pub fn raise(weight: u64, bump: i64) -> (r: u64)
    ensures
        r == saturating_sum(weight, bump),
{
    let sum: i128 = weight as i128 + bump as i128;
    if sum < 0 {
        0
    } else if sum > u64::MAX as i128 {
        u64::MAX
    } else {
        sum as u64
    }
}

/// A weight table after the rank `mean` was played: every weight is raised
/// by the bump for the distance of its rank from `mean`, and stays between
/// zero and the greatest weight.
pub open spec fn adjusted(weights: Map<u8, u64>, kernel: Seq<i64>, mean: u8) -> Map<u8, u64> {
    Map::new(
        |k: u8| weights.contains_key(k),
        |k: u8| saturating_sum(weights[k], kernel[distance(k, mean)]),
    )
}

/// Raises the weights of a table around the rank `mean`.
pub fn adjust_haspmap(hashmap: &mut HashMap<u8, u64>, kernel: &GaussianKernel, mean: u8)
    requires
        kernel.wf(),
    ensures
        final(hashmap)@ == adjusted(old(hashmap)@, kernel@, mean),
{
    broadcast use vstd::std_specs::hash::group_hash_axioms;

    let mut k: usize = 0;
    while k < 256
        invariant
            k <= 256,
            kernel.wf(),
            hashmap@.dom() == old(hashmap)@.dom(),
            forall|j: u8|
                j < k && hashmap@.contains_key(j) ==> hashmap@[j] == saturating_sum(
                    old(hashmap)@[j],
                    kernel@[distance(j, mean)],
                ),
            forall|j: u8| j >= k && hashmap@.contains_key(j) ==> hashmap@[j] == old(hashmap)@[j],
        decreases 256 - k,
    {
        let key = k as u8;
        let d = if key >= mean {
            key - mean
        } else {
            mean - key
        };
        let bump = kernel.bump(d);
        let raised = match hashmap.get(&key) {
            Some(weight) => Some(raise(*weight, bump)),
            None => None,
        };
        match raised {
            Some(weight) => {
                hashmap.insert(key, weight);
                assert(hashmap@.dom() =~= old(hashmap)@.dom());
            },
            None => {},
        }
        k = k + 1;
    }
    assert(hashmap@ =~= adjusted(old(hashmap)@, kernel@, mean));
}

/// The weight tables of the two sides and whose turn it is.
pub struct TablesView {
    pub white: Map<u8, u64>,
    pub black: Map<u8, u64>,
    pub is_white: bool,
}

impl TablesView {
    /// Both tables at the baseline, White to move.
    pub open spec fn start() -> TablesView {
        TablesView { white: baseline_weights(), black: baseline_weights(), is_white: true }
    }

    /// The table of the side to move.
    pub open spec fn current(self) -> Map<u8, u64> {
        if self.is_white {
            self.white
        } else {
            self.black
        }
    }

    /// The code of the side to move.
    pub open spec fn codes(self) -> Map<u8, Seq<bool>> {
        huffman_codes(self.current())
    }

    /// The tables after the side to move played the rank `symbol`: its table
    /// is raised around that rank, and the turn passes to the other side.
    pub open spec fn step(self, kernel: Seq<i64>, symbol: u8) -> TablesView {
        if self.is_white {
            TablesView {
                white: adjusted(self.white, kernel, symbol),
                black: self.black,
                is_white: false,
            }
        } else {
            TablesView {
                white: self.white,
                black: adjusted(self.black, kernel, symbol),
                is_white: true,
            }
        }
    }

    /// Both tables have a weight for every rank.
    pub open spec fn wf(self) -> bool {
        is_weight_table(self.white) && is_weight_table(self.black)
    }

    /// The tables after the ranks `symbols` were played in turn.
    pub open spec fn after(self, kernel: Seq<i64>, symbols: Seq<u8>) -> TablesView
        decreases symbols.len(),
    {
        if symbols.len() == 0 {
            self
        } else {
            self.step(kernel, symbols[0]).after(kernel, symbols.skip(1))
        }
    }
}

/// The weight tables of the two sides, as a coder or a decoder holds them.
pub struct AdaptiveTables {
    white: HashMap<u8, u64>,
    black: HashMap<u8, u64>,
    is_white: bool,
}

impl View for AdaptiveTables {
    type V = TablesView;

    closed spec fn view(&self) -> TablesView {
        TablesView { white: self.white@, black: self.black@, is_white: self.is_white }
    }
}

impl AdaptiveTables {
    /// Both tables at the baseline, White to move.
    pub fn new() -> (r: AdaptiveTables)
        ensures
            r@ == TablesView::start(),
            r@.wf(),
    {
        AdaptiveTables {
            white: get_lichess_hashmap(),
            black: get_lichess_hashmap(),
            is_white: true,
        }
    }

    /// The Huffman code of the table of the side to move.
    pub fn codebook(&self) -> (r: Codebook)
        ensures
            r.wf(),
            r.codes() == self@.codes(),
            r.codes().dom() == self@.current().dom(),
            prefix_free(r.codes()),
    {
        if self.is_white {
            Codebook::new(&self.white)
        } else {
            Codebook::new(&self.black)
        }
    }

    /// Takes note that the side to move played the rank `symbol`.
    pub fn update(&mut self, kernel: &GaussianKernel, symbol: u8)
        requires
            kernel.wf(),
        ensures
            final(self)@ == old(self)@.step(kernel@, symbol),
            old(self)@.wf() ==> final(self)@.wf(),
    {
        if self.is_white {
            adjust_haspmap(&mut self.white, kernel, symbol);
        } else {
            adjust_haspmap(&mut self.black, kernel, symbol);
        }
        self.is_white = !self.is_white;
    }
}

/// The bits of a list of moves played from a position, written behind
/// `acc`: each move as the code word that its rank has in the code of the
/// side that moves, as the tables stand at that move.
pub open spec fn encode_adaptive_from(
    tables: TablesView,
    fen: Seq<char>,
    sans: Seq<Seq<char>>,
    kernel: Seq<i64>,
    acc: Seq<bool>,
) -> Result<Seq<bool>, EncodeError>
    decreases sans.len(),
{
    if sans.len() == 0 {
        Ok(acc)
    } else {
        match encode_symbol(fen, sans[0]) {
            Err(e) => Err(e),
            Ok((s, m)) => match encode_step_result(tables.codes(), acc, s) {
                Err(e) => Err(e),
                Ok(_) => encode_adaptive_from(
                    tables.step(kernel, s),
                    fen_after(fen, m),
                    sans.skip(1),
                    kernel,
                    acc + tables.codes()[s],
                ),
            },
        }
    }
}

/// The bits of the moves of a game in the adaptive code.
pub open spec fn compress_moves_custom_spec(sans: Seq<Seq<char>>, kernel: Seq<i64>) -> Result<
    Seq<bool>,
    EncodeError,
> {
    encode_adaptive_from(TablesView::start(), initial_fen(), sans, kernel, Seq::empty())
}

/// The moves that bits stand for from a position on, behind the moves
/// `acc`. No bits stand for no further move. Else the bits must begin with
/// a code word of the side to move, and the rank must be that of a legal
/// move. Decoding ends with the move whose code word is all that is left of
/// the bits, or after which the side to move has no legal move.
pub open spec fn decode_adaptive_from(
    tables: TablesView,
    fen: Seq<char>,
    bits: Seq<bool>,
    kernel: Seq<i64>,
    acc: Seq<Seq<char>>,
) -> Result<Seq<Seq<char>>, DecodeError>
    decreases bits.len(),
{
    if bits.len() == 0 {
        Ok(acc)
    } else {
        match first_symbol(tables.codes(), bits) {
            None => Err(DecodeError::Truncated),
            Some(s) => {
                let ranked = ranked_moves_at(fen);
                let word = tables.codes()[s];
                if s >= ranked.len() {
                    Err(DecodeError::IndexOutOfRange)
                } else if word == bits || legal_moves_at(fen_after(fen, ranked[s as int])).len()
                    == 0 {
                    Ok(acc.push(san_at(fen, ranked[s as int])))
                } else if word.len() == 0 {
                    Err(DecodeError::Truncated)
                } else {
                    decode_adaptive_from(
                        tables.step(kernel, s),
                        fen_after(fen, ranked[s as int]),
                        bits.skip(word.len() as int),
                        kernel,
                        acc.push(san_at(fen, ranked[s as int])),
                    )
                }
            },
        }
    }
}

/// The moves that bits stand for in the adaptive code.
pub open spec fn decompress_moves_custom_spec(bits: Seq<bool>, kernel: Seq<i64>) -> Result<
    Seq<Seq<char>>,
    DecodeError,
> {
    decode_adaptive_from(TablesView::start(), initial_fen(), bits, kernel, Seq::empty())
}

/// The code of the side to move is prefix-free and has a word for every
/// rank, at every move of the list that can be encoded.
pub open spec fn codes_sound_along(
    tables: TablesView,
    fen: Seq<char>,
    sans: Seq<Seq<char>>,
    kernel: Seq<i64>,
) -> bool
    decreases sans.len(),
{
    sans.len() == 0 || (prefix_free(tables.codes()) && (forall|s: u8|
        tables.codes().contains_key(s)) && (match encode_symbol(fen, sans[0]) {
        Err(_) => true,
        Ok((s, m)) => codes_sound_along(
            tables.step(kernel, s),
            fen_after(fen, m),
            sans.skip(1),
            kernel,
        ),
    }))
}

/// Moves in the notation of the rules engine are what their bits decode
/// to.
pub open spec fn adaptive_moves_read_back(
    sans: Seq<Seq<char>>,
    kernel: Seq<i64>,
    bits: Seq<bool>,
) -> bool {
    canonical_moves(initial_fen(), sans) ==> decompress_moves_custom_spec(bits, kernel) == Ok::<
        Seq<Seq<char>>,
        DecodeError,
    >(sans)
}

/// Compresses the moves of a game with the adaptive code of a kernel.
pub fn compress_moves_custom(pgn: &PgnData, kernel: &GaussianKernel) -> (r: Result<
    BitVec,
    EncodeError,
>)
    requires
        kernel.wf(),
    ensures
        bits_result(r) == compress_moves_custom_spec(pgn@.moves, kernel@),
        r matches Ok(b) ==> {
            &&& adaptive_moves_read_back(pgn@.moves, kernel@, bits_of(b))
            &&& bits_of(b).len() >= pgn@.moves.len()
            &&& codes_sound_along(TablesView::start(), initial_fen(), pgn@.moves, kernel@)
        },
{
    let mut tables = AdaptiveTables::new();
    let mut pos = Position::new();
    let mut bit_moves = bitvec_new();
    let ghost sans = pgn@.moves;
    let mut i: usize = 0;
    assert(sans.skip(0) =~= sans);
    while i < pgn.moves.len()
        invariant
            i <= pgn.moves@.len(),
            sans == pgn@.moves,
            kernel.wf(),
            tables@.wf(),
            compress_moves_custom_spec(sans, kernel@) == encode_adaptive_from(
                tables@,
                pos@,
                sans.skip(i as int),
                kernel@,
                bits_of(bit_moves),
            ),
            codes_sound_along(tables@, pos@, sans.skip(i as int), kernel@) ==> codes_sound_along(
                TablesView::start(),
                initial_fen(),
                sans,
                kernel@,
            ),
        decreases pgn.moves@.len() - i,
    {
        let ghost rest = sans.skip(i as int);
        assert(rest[0] == pgn.moves@[i as int]@);
        assert(rest.skip(1) =~= sans.skip(i + 1));
        let (symbol, m) = match encode_symbol_at(&pos, pgn.moves[i].0.as_str()) {
            Ok(found) => found,
            Err(e) => {
                return Err(e);
            },
        };
        let book = tables.codebook();
        match book.encode(&mut bit_moves, symbol) {
            Ok(_) => {},
            Err(e) => {
                return Err(e);
            },
        }
        pos.play_unchecked(&m);
        tables.update(kernel, symbol);
        i = i + 1;
    }
    proof {
        assert(sans.skip(i as int).len() == 0);
        lemma_adaptive_length(TablesView::start(), initial_fen(), sans, kernel@, Seq::empty());
        if canonical_moves(initial_fen(), sans) {
            lemma_adaptive_round_trip(
                TablesView::start(),
                initial_fen(),
                sans,
                kernel@,
                Seq::empty(),
                Seq::empty(),
            );
            assert(bits_of(bit_moves).skip(0) =~= bits_of(bit_moves));
            assert(Seq::<Seq<char>>::empty() + sans =~= sans);
        }
    }
    Ok(bit_moves)
}

/// Decompresses the moves of a game with the adaptive code of a kernel.
pub fn decompress_moves_custom(move_bits: &BitVec, kernel: &GaussianKernel) -> (r: Result<
    Vec<SanPlusWrapper>,
    DecodeError,
>)
    requires
        kernel.wf(),
    ensures
        moves_result(r) == decompress_moves_custom_spec(bits_of(*move_bits), kernel@),
{
    let mut tables = AdaptiveTables::new();
    let mut pos = Position::new();
    let mut moves: Vec<SanPlusWrapper> = Vec::new();
    let len = bitvec_len(move_bits);
    let ghost bits = bits_of(*move_bits);
    let mut start: usize = 0;
    assert(bits.skip(0) =~= bits);
    assert(moves_text(moves@) =~= Seq::empty());
    loop
        invariant
            start <= len,
            len == bits.len(),
            bits == bits_of(*move_bits),
            kernel.wf(),
            decompress_moves_custom_spec(bits, kernel@) == decode_adaptive_from(
                tables@,
                pos@,
                bits.skip(start as int),
                kernel@,
                moves_text(moves@),
            ),
        decreases len - start,
    {
        if start == len {
            return Ok(moves);
        }
        let book = tables.codebook();
        let symbol = match book.decode_at(move_bits, start) {
            Some(symbol) => symbol,
            None => {
                return Err(DecodeError::Truncated);
            },
        };
        let legal_moves = generate_moves(&pos);
        let index = symbol as usize;
        if index >= legal_moves.len() {
            return Err(DecodeError::IndexOutOfRange);
        }
        let m = legal_moves[index];
        let san = pos.play_legal(&m);
        proof {
            let before = moves_text(moves@);
            assert(moves_text(moves@.push(SanPlusWrapper(san))) =~= before.push(san@));
        }
        moves.push(SanPlusWrapper(san));
        tables.update(kernel, symbol);
        let code_len = match book.code_of(symbol) {
            Some(code) => bitvec_len(&code),
            None => 0,
        };
        proof {
            let rest = bits.skip(start as int);
            let word = book.codes()[symbol];
            assert(decodes_to(book.codes(), rest, symbol));
            assert(rest.take(rest.len() as int) =~= rest);
            assert((code_len >= len - start) == (word == rest));
        }
        if code_len >= len - start || pos.is_over() {
            return Ok(moves);
        }
        if code_len == 0 {
            return Err(DecodeError::Truncated);
        }
        proof {
            assert(bits.skip(start as int).skip(code_len as int) =~= bits.skip(
                start + code_len,
            ));
        }
        start = start + code_len;
    }
}

/// The ranks that the coder writes for a list of moves, as far as the moves
/// can be encoded.
pub open spec fn ranks_of(fen: Seq<char>, sans: Seq<Seq<char>>) -> Seq<u8>
    decreases sans.len(),
{
    if sans.len() == 0 {
        Seq::empty()
    } else {
        match encode_symbol(fen, sans[0]) {
            Err(_) => Seq::empty(),
            Ok((s, m)) => seq![s] + ranks_of(fen_after(fen, m), sans.skip(1)),
        }
    }
}

/// The ranks that the decoder reads from bits, up to the end or the first
/// error.
pub open spec fn decoded_ranks(
    tables: TablesView,
    fen: Seq<char>,
    bits: Seq<bool>,
    kernel: Seq<i64>,
) -> Seq<u8>
    decreases bits.len(),
{
    if bits.len() == 0 {
        Seq::empty()
    } else {
        match first_symbol(tables.codes(), bits) {
            None => Seq::empty(),
            Some(s) => {
                let ranked = ranked_moves_at(fen);
                let word = tables.codes()[s];
                if s >= ranked.len() {
                    Seq::empty()
                } else if word == bits || legal_moves_at(fen_after(fen, ranked[s as int])).len()
                    == 0 {
                    seq![s]
                } else if word.len() == 0 {
                    Seq::empty()
                } else {
                    seq![s] + decoded_ranks(
                        tables.step(kernel, s),
                        fen_after(fen, ranked[s as int]),
                        bits.skip(word.len() as int),
                        kernel,
                    )
                }
            },
        }
    }
}

/// Decoding what was encoded gives the moves back, with the tables of the
/// decoder in step with those of the coder: where a list of moves in the
/// notation of the rules engine is encoded behind `acc_bits`, the
/// bits that were added decode, from the same tables and the same position
/// on and behind `acc_moves`, to the same moves.
pub proof fn lemma_adaptive_round_trip(
    tables: TablesView,
    fen: Seq<char>,
    sans: Seq<Seq<char>>,
    kernel: Seq<i64>,
    acc_bits: Seq<bool>,
    acc_moves: Seq<Seq<char>>,
)
    requires
        canonical_moves(fen, sans),
        codes_sound_along(tables, fen, sans, kernel),
        encode_adaptive_from(tables, fen, sans, kernel, acc_bits).is_ok(),
    ensures
        is_prefix(acc_bits, encode_adaptive_from(tables, fen, sans, kernel, acc_bits).unwrap()),
        decode_adaptive_from(
            tables,
            fen,
            encode_adaptive_from(tables, fen, sans, kernel, acc_bits).unwrap().skip(
                acc_bits.len() as int,
            ),
            kernel,
            acc_moves,
        ) == Ok::<Seq<Seq<char>>, DecodeError>(acc_moves + sans),
        decoded_ranks(
            tables,
            fen,
            encode_adaptive_from(tables, fen, sans, kernel, acc_bits).unwrap().skip(
                acc_bits.len() as int,
            ),
            kernel,
        ) == ranks_of(fen, sans),
{
    if sans.len() == 0 {
        let bits = encode_adaptive_from(tables, fen, sans, kernel, acc_bits).unwrap();
        assert(bits.take(acc_bits.len() as int) =~= acc_bits);
        assert(bits.skip(acc_bits.len() as int).len() == 0);
        assert(acc_moves + sans =~= acc_moves);
    } else {
        lemma_adaptive_round_trip_of_moves(tables, fen, sans, kernel, acc_bits, acc_moves);
    }
}

/// Every move adds at least one bit: what is encoded behind `acc` is
/// longer than `acc` by the number of the moves or more.
pub proof fn lemma_adaptive_length(
    tables: TablesView,
    fen: Seq<char>,
    sans: Seq<Seq<char>>,
    kernel: Seq<i64>,
    acc: Seq<bool>,
)
    requires
        codes_sound_along(tables, fen, sans, kernel),
        encode_adaptive_from(tables, fen, sans, kernel, acc).is_ok(),
    ensures
        encode_adaptive_from(tables, fen, sans, kernel, acc).unwrap().len() >= acc.len()
            + sans.len(),
    decreases sans.len(),
{
    if sans.len() > 0 {
        let (s, m) = encode_symbol(fen, sans[0]).unwrap();
        lemma_no_empty_word(tables.codes());
        lemma_adaptive_length(
            tables.step(kernel, s),
            fen_after(fen, m),
            sans.skip(1),
            kernel,
            acc + tables.codes()[s],
        );
    }
}

/// The round trip of a list that has a move.
proof fn lemma_adaptive_round_trip_of_moves(
    tables: TablesView,
    fen: Seq<char>,
    sans: Seq<Seq<char>>,
    kernel: Seq<i64>,
    acc_bits: Seq<bool>,
    acc_moves: Seq<Seq<char>>,
)
    requires
        sans.len() > 0,
        canonical_moves(fen, sans),
        codes_sound_along(tables, fen, sans, kernel),
        encode_adaptive_from(tables, fen, sans, kernel, acc_bits).is_ok(),
    ensures
        is_prefix(acc_bits, encode_adaptive_from(tables, fen, sans, kernel, acc_bits).unwrap()),
        encode_adaptive_from(tables, fen, sans, kernel, acc_bits).unwrap().len() > acc_bits.len(),
        decode_adaptive_from(
            tables,
            fen,
            encode_adaptive_from(tables, fen, sans, kernel, acc_bits).unwrap().skip(
                acc_bits.len() as int,
            ),
            kernel,
            acc_moves,
        ) == Ok::<Seq<Seq<char>>, DecodeError>(acc_moves + sans),
        decoded_ranks(
            tables,
            fen,
            encode_adaptive_from(tables, fen, sans, kernel, acc_bits).unwrap().skip(
                acc_bits.len() as int,
            ),
            kernel,
        ) == ranks_of(fen, sans),
    decreases sans.len(),
{
    let bits = encode_adaptive_from(tables, fen, sans, kernel, acc_bits).unwrap();
    let codes = tables.codes();
    let (s, m) = encode_symbol(fen, sans[0]).unwrap();
    let word = codes[s];
    let next_tables = tables.step(kernel, s);
    let next_fen = fen_after(fen, m);
    let next_acc = acc_bits + word;
    let next_moves = acc_moves.push(sans[0]);
    let rest = sans.skip(1);
    lemma_no_empty_word(codes);
    assert(word.len() > 0);
    let ranked = ranked_moves_at(fen);
    assert(ranked[s as int] == m && s < ranked.len()) by {
        if ranked.contains(m) {
            lemma_rank_round_trip(ranked, m);
        }
    }
    assert(bits == encode_adaptive_from(next_tables, next_fen, rest, kernel, next_acc).unwrap());
    if rest.len() == 0 {
        assert(bits == next_acc);
        assert(sans =~= seq![sans[0]]);
        assert(ranks_of(next_fen, rest) =~= Seq::<u8>::empty());
        assert(ranks_of(fen, sans) =~= seq![s]);
        assert(acc_moves.push(sans[0]) =~= acc_moves + sans);
    } else {
        lemma_adaptive_round_trip_of_moves(
            next_tables,
            next_fen,
            rest,
            kernel,
            next_acc,
            next_moves,
        );
        // the move that follows is legal, so the game is not over
        let (s2, m2) = encode_symbol(next_fen, rest[0]).unwrap();
        lemma_ranked_moves(next_fen);
        assert(ranked_moves_at(next_fen).contains(m2));
        assert(legal_moves_at(next_fen).len() > 0);
    }
    assert(bits.take(next_acc.len() as int) == next_acc);
    assert(bits.take(acc_bits.len() as int) =~= next_acc.take(acc_bits.len() as int));
    assert(next_acc.take(acc_bits.len() as int) =~= acc_bits);
    let tail = bits.skip(acc_bits.len() as int);
    assert(tail.take(word.len() as int) =~= word) by {
        assert forall|k: int| 0 <= k < word.len() implies tail[k] == word[k] by {
            assert(bits.take(next_acc.len() as int)[acc_bits.len() + k] == next_acc[acc_bits.len()
                + k]);
        }
    }
    assert(decodes_to(codes, tail, s));
    lemma_first_symbol(codes, tail, s);
    assert(tail.skip(word.len() as int) =~= bits.skip(next_acc.len() as int));
    if rest.len() == 0 {
        assert(tail =~= word);
    } else {
        assert(tail.len() > word.len());
    }
    assert(next_moves + rest =~= acc_moves + sans);
}

/// The bits of a game in the adaptive code: the frame around the bits of
/// its moves.
pub open spec fn compress_pgn_data_custom_spec(game: GameView, kernel: Seq<i64>) -> Result<
    Seq<bool>,
    EncodeError,
> {
    framed(game.headers, compress_moves_custom_spec(game.moves, kernel))
}

/// The game that bits stand for in the adaptive code.
pub open spec fn decompress_pgn_data_custom_spec(bits: Seq<bool>, kernel: Seq<i64>) -> Result<
    GameView,
    DecodeError,
> {
    match decompress_headers_spec(bits) {
        Err(e) => Err(e),
        Ok((headers, start)) => match decompress_moves_custom_spec(
            bits.skip(body_start(start)),
            kernel,
        ) {
            Err(e) => Err(e),
            Ok(moves) => Ok(GameView { headers, moves }),
        },
    }
}

/// A game that the adaptive code compresses into `bits` is the game that
/// `bits` decompress to, where the block of its tags reads back and the
/// bits of its moves decode to its moves.
pub proof fn lemma_round_trip(game: GameView, kernel: Seq<i64>, bits: Seq<bool>)
    requires
        compress_pgn_data_custom_spec(game, kernel) == Ok::<Seq<bool>, EncodeError>(bits),
        block_reads_back(game.headers, header_block(game.headers).unwrap()),
        decompress_moves_custom_spec(
            compress_moves_custom_spec(game.moves, kernel).unwrap(),
            kernel,
        ) == Ok::<Seq<Seq<char>>, DecodeError>(game.moves),
    ensures
        decompress_pgn_data_custom_spec(bits, kernel) == Ok::<GameView, DecodeError>(game),
{
    lemma_framed(game.headers, compress_moves_custom_spec(game.moves, kernel).unwrap());
}

/// What holds of a game that the adaptive code of a kernel compressed: the
/// first bit tells whether the tags are empty, every move has at least one
/// bit, a game whose moves are written as the rules engine writes them is
/// what the bits decompress to, and the code of the side to move was a
/// prefix-free code for all ranks at every move.
pub open spec fn compressed_well(game: GameView, kernel: Seq<i64>, bits: Seq<bool>) -> bool {
    &&& bits.len() >= 1 + game.moves.len()
    &&& bits[0] == game.headers.is_empty()
    &&& !game.headers.is_empty() ==> bits.len() >= 16 + game.moves.len()
    &&& canonical_moves(initial_fen(), game.moves) ==> decompress_pgn_data_custom_spec(
        bits,
        kernel,
    ) == Ok::<GameView, DecodeError>(game)
    &&& codes_sound_along(TablesView::start(), initial_fen(), game.moves, kernel)
}

/// Compresses a game with the adaptive code of a kernel: the tags are
/// compressed, the moves are encoded, and the frame is put around both.
pub fn compress_pgn_data_custom(pgn: &PgnData, kernel: &GaussianKernel) -> (r: Result<
    BitVec,
    EncodeError,
>)
    requires
        kernel.wf(),
    ensures
        bits_result(r) == compress_pgn_data_custom_spec(pgn@, kernel@),
        r matches Ok(b) ==> compressed_well(pgn@, kernel@, bits_of(b)),
{
    let headers = match compress_headers(pgn) {
        Ok(headers) => headers,
        Err(e) => {
            return Err(e);
        },
    };
    let moves = match compress_moves_custom(pgn, kernel) {
        Ok(moves) => moves,
        Err(e) => {
            return Err(e);
        },
    };
    let ghost body = bits_of(moves);
    let r = frame_game(pgn, headers, moves);
    proof {
        if r.is_ok() {
            lemma_framed(pgn@.headers, body);
            if canonical_moves(initial_fen(), pgn@.moves) {
                lemma_round_trip(pgn@, kernel@, bits_of(r.unwrap()));
            }
        }
    }
    r
}

/// Compresses a game with the adaptive code of the canonical kernel.
pub fn compress_pgn_data(pgn: &PgnData) -> (r: Result<BitVec, EncodeError>)
    ensures
        bits_result(r) == compress_pgn_data_custom_spec(pgn@, GAUSSIAN_BUMPS@),
        r matches Ok(b) ==> compressed_well(pgn@, GAUSSIAN_BUMPS@, bits_of(b)),
{
    let kernel = GaussianKernel::canonical();
    compress_pgn_data_custom(pgn, &kernel)
}

/// Decompresses a game that the adaptive code of a kernel compressed.
pub fn decompress_pgn_data_custom(bit_vec: &BitVec, kernel: &GaussianKernel) -> (r: Result<
    PgnData,
    DecodeError,
>)
    requires
        kernel.wf(),
    ensures
        game_result(r) == decompress_pgn_data_custom_spec(bits_of(*bit_vec), kernel@),
{
    let (headers, start) = match decompress_headers(bit_vec) {
        Ok(found) => found,
        Err(e) => {
            return Err(e);
        },
    };
    let from = if start == 0 {
        1
    } else {
        start
    };
    let move_bits = match get_bitvec_slice(bit_vec, from, bitvec_len(bit_vec)) {
        Ok(move_bits) => move_bits,
        Err(_) => {
            return Err(DecodeError::Truncated);
        },
    };
    assert(bits_of(move_bits) =~= bits_of(*bit_vec).skip(from as int));
    match decompress_moves_custom(&move_bits, kernel) {
        Ok(moves) => Ok(PgnData { headers, moves }),
        Err(e) => Err(e),
    }
}

/// Decompresses a game that the adaptive code of the canonical kernel
/// compressed.
pub fn decompress_pgn_data(bit_vec: &BitVec) -> (r: Result<PgnData, DecodeError>)
    ensures
        game_result(r) == decompress_pgn_data_custom_spec(bits_of(*bit_vec), GAUSSIAN_BUMPS@),
{
    let kernel = GaussianKernel::canonical();
    decompress_pgn_data_custom(bit_vec, &kernel)
}

} // verus!
