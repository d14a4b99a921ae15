//! The weight tables of the adaptive codec, ply by ply: which table every
//! move of a game is written with, and that the decoder reads with the
//! same.

use crate::chess::{fen_after, initial_fen};
use crate::codebook::huffman_codes;
use crate::dynamic_huffman::{
    adjusted, codes_sound_along, compress_moves_custom_spec, decoded_ranks, encode_adaptive_from,
    lemma_adaptive_round_trip, ranks_of, TablesView,
};
use crate::huffman::{canonical_moves, encode_symbol};
use crate::weights::baseline_weights;
use vstd::prelude::*;

verus! {

/// The table of one side after the first `k` plies of a game, given the
/// ranks that were played: the baseline, raised in turn around the rank of
/// every ply before `k` at which that side moved. White moves at the plies
/// 0, 2, 4, ... and Black at the others.
pub open spec fn side_table(kernel: Seq<i64>, ranks: Seq<u8>, k: int, white: bool) -> Map<u8, u64>
    decreases k,
{
    if k <= 0 {
        baseline_weights()
    } else if ((k - 1) % 2 == 0) == white {
        adjusted(side_table(kernel, ranks, k - 1, white), kernel, ranks[k - 1])
    } else {
        side_table(kernel, ranks, k - 1, white)
    }
}

/// The tables of both sides before ply `k`, with the side that moves at it.
pub open spec fn tables_at(kernel: Seq<i64>, ranks: Seq<u8>, k: int) -> TablesView {
    TablesView {
        white: side_table(kernel, ranks, k, true),
        black: side_table(kernel, ranks, k, false),
        is_white: k % 2 == 0,
    }
}

/// The code word that ply `k` is written with: that of its rank in the
/// code of the table of the side that moves.
pub open spec fn word_at(kernel: Seq<i64>, ranks: Seq<u8>, k: int) -> Seq<bool> {
    huffman_codes(tables_at(kernel, ranks, k).current())[ranks[k]]
}

/// The code words of the first `n` plies, one after the other.
pub open spec fn words_upto(kernel: Seq<i64>, ranks: Seq<u8>, n: int) -> Seq<bool>
    decreases n,
{
    if n <= 0 {
        Seq::empty()
    } else {
        words_upto(kernel, ranks, n - 1) + word_at(kernel, ranks, n - 1)
    }
}

/// The code words of the first `n` of the given ranks, written from the
/// given tables on.
pub open spec fn words_from(tables: TablesView, kernel: Seq<i64>, ranks: Seq<u8>, n: int) -> Seq<
    bool,
>
    decreases n,
{
    if n <= 0 {
        Seq::empty()
    } else {
        words_from(tables, kernel, ranks, n - 1) + tables.after(kernel, ranks.take(n - 1)).codes()[ranks[n
            - 1]]
    }
}

/// Tables after ranks and one more rank are the tables after the ranks,
/// stepped by the one.
proof fn lemma_after_push(tables: TablesView, kernel: Seq<i64>, ranks: Seq<u8>, last: u8)
    ensures
        tables.after(kernel, ranks.push(last)) == tables.after(kernel, ranks).step(kernel, last),
    decreases ranks.len(),
{
    let longer = ranks.push(last);
    if ranks.len() == 0 {
        assert(longer.skip(1) =~= Seq::<u8>::empty());
        assert(tables.step(kernel, last).after(kernel, Seq::<u8>::empty()) == tables.step(
            kernel,
            last,
        ));
    } else {
        assert(longer.skip(1) =~= ranks.skip(1).push(last));
        assert(longer[0] == ranks[0]);
        lemma_after_push(tables.step(kernel, ranks[0]), kernel, ranks.skip(1), last);
    }
}

/// The tables that the ranks of the first `k` plies lead to from the start
/// are the tables of both sides before ply `k`.
pub proof fn lemma_tables_at(kernel: Seq<i64>, ranks: Seq<u8>, k: int)
    requires
        0 <= k <= ranks.len(),
    ensures
        TablesView::start().after(kernel, ranks.take(k)) == tables_at(kernel, ranks, k),
    decreases k,
{
    if k == 0 {
        assert(ranks.take(0) =~= Seq::<u8>::empty());
    } else {
        lemma_tables_at(kernel, ranks, k - 1);
        assert(ranks.take(k) =~= ranks.take(k - 1).push(ranks[k - 1]));
        lemma_after_push(TablesView::start(), kernel, ranks.take(k - 1), ranks[k - 1]);
    }
}

/// The words written from given tables on begin with the word of the first
/// rank, and go on as the words that are written from the next tables on.
proof fn lemma_words_from_shift(tables: TablesView, kernel: Seq<i64>, ranks: Seq<u8>, n: int)
    requires
        1 <= n <= ranks.len(),
    ensures
        words_from(tables, kernel, ranks, n) == tables.codes()[ranks[0]] + words_from(
            tables.step(kernel, ranks[0]),
            kernel,
            ranks.skip(1),
            n - 1,
        ),
    decreases n,
{
    let next = tables.step(kernel, ranks[0]);
    let rest = ranks.skip(1);
    if n == 1 {
        assert(ranks.take(0) =~= Seq::<u8>::empty());
        assert(words_from(tables, kernel, ranks, 0) =~= Seq::<bool>::empty());
        assert(words_from(next, kernel, rest, 0) =~= Seq::<bool>::empty());
        assert(words_from(tables, kernel, ranks, 1) =~= tables.codes()[ranks[0]]);
        assert(tables.codes()[ranks[0]] + Seq::<bool>::empty() =~= tables.codes()[ranks[0]]);
    } else {
        lemma_words_from_shift(tables, kernel, ranks, n - 1);
        assert(ranks.take(n - 1).skip(1) =~= rest.take(n - 2));
        assert(ranks.take(n - 1)[0] == ranks[0]);
        assert(tables.after(kernel, ranks.take(n - 1)) == next.after(kernel, rest.take(n - 2)));
        assert(rest[n - 2] == ranks[n - 1]);
        let word = tables.after(kernel, ranks.take(n - 1)).codes()[ranks[n - 1]];
        assert(tables.codes()[ranks[0]] + words_from(next, kernel, rest, n - 2) + word
            =~= tables.codes()[ranks[0]] + (words_from(next, kernel, rest, n - 2) + word));
    }
}

/// What is encoded behind `acc` is `acc` and the code words of the ranks
/// of the moves, each in the code of the tables as they stand at its ply;
/// and every move has a rank.
pub proof fn lemma_encoded_words(
    tables: TablesView,
    fen: Seq<char>,
    sans: Seq<Seq<char>>,
    kernel: Seq<i64>,
    acc: Seq<bool>,
)
    requires
        encode_adaptive_from(tables, fen, sans, kernel, acc).is_ok(),
    ensures
        ranks_of(fen, sans).len() == sans.len(),
        encode_adaptive_from(tables, fen, sans, kernel, acc).unwrap() == acc + words_from(
            tables,
            kernel,
            ranks_of(fen, sans),
            sans.len() as int,
        ),
    decreases sans.len(),
{
    let ranks = ranks_of(fen, sans);
    if sans.len() == 0 {
        assert(acc + Seq::<bool>::empty() =~= acc);
    } else {
        let (s, m) = encode_symbol(fen, sans[0]).unwrap();
        let next = tables.step(kernel, s);
        let rest = ranks_of(fen_after(fen, m), sans.skip(1));
        lemma_encoded_words(next, fen_after(fen, m), sans.skip(1), kernel, acc + tables.codes()[s]);
        assert(ranks =~= seq![s] + rest);
        assert(ranks.skip(1) =~= rest);
        lemma_words_from_shift(tables, kernel, ranks, sans.len() as int);
        assert(acc + tables.codes()[s] + words_from(next, kernel, rest, sans.len() - 1) =~= acc + (
        tables.codes()[s] + words_from(next, kernel, rest, sans.len() - 1)));
    }
}

/// The words written from the start are the words of the plies.
proof fn lemma_words_of_plies(kernel: Seq<i64>, ranks: Seq<u8>, n: int)
    requires
        0 <= n <= ranks.len(),
    ensures
        words_from(TablesView::start(), kernel, ranks, n) == words_upto(kernel, ranks, n),
    decreases n,
{
    if n > 0 {
        lemma_words_of_plies(kernel, ranks, n - 1);
        lemma_tables_at(kernel, ranks, n - 1);
    }
}

/// Which table every ply is written with: the bits of the moves of a game
/// are the code words of the ranks of its moves, one after the other, the
/// word of ply `k` taken from the code of the table of the side that moves
/// at `k`. That table is the baseline raised around the ranks of the plies
/// before `k` at which the same side moved, and the ranks of the other
/// side do not change it.
pub proof fn lemma_encoder_tables(sans: Seq<Seq<char>>, kernel: Seq<i64>)
    requires
        compress_moves_custom_spec(sans, kernel).is_ok(),
    ensures
        ranks_of(initial_fen(), sans).len() == sans.len(),
        compress_moves_custom_spec(sans, kernel).unwrap() == words_upto(
            kernel,
            ranks_of(initial_fen(), sans),
            sans.len() as int,
        ),
{
    let ranks = ranks_of(initial_fen(), sans);
    lemma_encoded_words(TablesView::start(), initial_fen(), sans, kernel, Seq::empty());
    lemma_words_of_plies(kernel, ranks, sans.len() as int);
    assert(Seq::<bool>::empty() + words_upto(kernel, ranks, sans.len() as int) =~= words_upto(
        kernel,
        ranks,
        sans.len() as int,
    ));
}

/// The decoder reads with the tables that the coder wrote with: of a game
/// whose moves are written as the rules engine writes them, the decoder
/// reads the ranks that the coder wrote, so before every ply both hold the
/// same tables, those of `tables_at`.
pub proof fn lemma_decoder_tables(sans: Seq<Seq<char>>, kernel: Seq<i64>, k: int)
    requires
        canonical_moves(initial_fen(), sans),
        codes_sound_along(TablesView::start(), initial_fen(), sans, kernel),
        compress_moves_custom_spec(sans, kernel).is_ok(),
        0 <= k <= sans.len(),
    ensures
        decoded_ranks(
            TablesView::start(),
            initial_fen(),
            compress_moves_custom_spec(sans, kernel).unwrap(),
            kernel,
        ) == ranks_of(initial_fen(), sans),
        TablesView::start().after(
            kernel,
            decoded_ranks(
                TablesView::start(),
                initial_fen(),
                compress_moves_custom_spec(sans, kernel).unwrap(),
                kernel,
            ).take(k),
        ) == tables_at(kernel, ranks_of(initial_fen(), sans), k),
{
    lemma_adaptive_round_trip(
        TablesView::start(),
        initial_fen(),
        sans,
        kernel,
        Seq::empty(),
        Seq::empty(),
    );
    let bits = compress_moves_custom_spec(sans, kernel).unwrap();
    assert(bits.skip(0) =~= bits);
    lemma_encoded_words(TablesView::start(), initial_fen(), sans, kernel, Seq::empty());
    lemma_tables_at(kernel, ranks_of(initial_fen(), sans), k);
}

} // verus!
