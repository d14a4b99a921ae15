//! Huffman codes over the 256 move ranks, which the `huffman-compress` crate
//! constructs from a weight table: a book to encode with and a tree to
//! decode with. Both are seen as the map from each symbol to its code word.

use crate::bits::{bits_of, bitvec_append, bitvec_len};
use crate::error::EncodeError;
use bit_vec::BitVec;
use huffman_compress::{Book, CodeBuilder, Tree};
use std::collections::HashMap;
use vstd::prelude::*;

verus! {

/// A code book: for each symbol its code word.
#[verifier::external_type_specification]
#[verifier::external_body]
#[verifier::reject_recursive_types(K)]
pub struct ExBook<K>(huffman_compress::Book<K>);

/// A code tree: the symbols at the leaves of a binary tree.
#[verifier::external_type_specification]
#[verifier::external_body]
#[verifier::reject_recursive_types(K)]
pub struct ExTree<K>(huffman_compress::Tree<K>);

/// The Huffman code that the crate constructs for a weight table: the code
/// word of each symbol of the table.
pub uninterp spec fn huffman_codes(weights: Map<u8, u64>) -> Map<u8, Seq<bool>>;

/// The code words that a book holds.
pub uninterp spec fn book_codes(book: Book<u8>) -> Map<u8, Seq<bool>>;

/// The code words that a tree decodes: for each leaf the path from the root.
pub uninterp spec fn tree_codes(tree: Tree<u8>) -> Map<u8, Seq<bool>>;

/// `a` is the beginning of `b`.
pub open spec fn is_prefix(a: Seq<bool>, b: Seq<bool>) -> bool {
    a.len() <= b.len() && b.take(a.len() as int) == a
}

/// No code word is the beginning of the code word of another symbol.
pub open spec fn prefix_free(codes: Map<u8, Seq<bool>>) -> bool {
    forall|a: u8, b: u8|
        codes.contains_key(a) && codes.contains_key(b) && a != b ==> !is_prefix(
            #[trigger] codes[a],
            #[trigger] codes[b],
        )
}

/// The bits begin with the code word of the symbol `s`.
pub open spec fn decodes_to(codes: Map<u8, Seq<bool>>, bits: Seq<bool>, s: u8) -> bool {
    codes.contains_key(s) && is_prefix(codes[s], bits)
}

/// The symbol with whose code word the bits begin, if there is one.
pub open spec fn first_symbol(codes: Map<u8, Seq<bool>>, bits: Seq<bool>) -> Option<u8> {
    if exists|s: u8| decodes_to(codes, bits, s) {
        Some(choose|s: u8| decodes_to(codes, bits, s))
    } else {
        None
    }
}

/// With a prefix-free code, bits begin with the code word of at most one
/// symbol.
pub proof fn lemma_first_symbol(codes: Map<u8, Seq<bool>>, bits: Seq<bool>, s: u8)
    requires
        prefix_free(codes),
        decodes_to(codes, bits, s),
    ensures
        first_symbol(codes, bits) == Some(s),
{
    let c = choose|c: u8| decodes_to(codes, bits, c);
    if c != s {
        if codes[c].len() <= codes[s].len() {
            assert(codes[s].take(codes[c].len() as int) =~= codes[c]);
            assert(is_prefix(codes[c], codes[s]));
        } else {
            assert(codes[c].take(codes[s].len() as int) =~= codes[s]);
            assert(is_prefix(codes[s], codes[c]));
        }
    }
}

/// In a prefix-free code for two symbols or more no code word is empty.
pub proof fn lemma_code_words_not_empty(codes: Map<u8, Seq<bool>>, a: u8, b: u8)
    requires
        prefix_free(codes),
        codes.contains_key(a),
        codes.contains_key(b),
        a != b,
    ensures
        codes[a].len() > 0,
{
    if codes[a].len() == 0 {
        assert(codes[b].take(0) =~= codes[a]);
        assert(is_prefix(codes[a], codes[b]));
    }
}

/// `CodeBuilder::from_iter` and `CodeBuilder::finish`: the book and the tree
/// of the Huffman code for a weight table. The crate documents that the code
/// depends on the symbols and their weights alone, ties between weights
/// being broken by the order of the symbols. Every symbol of the table gets
/// a code word; the code words are the paths to the leaves of the tree, so
/// none is the beginning of another.
#[verifier::external_body]
pub fn convert_hashmap_to_weights(hashmap: &HashMap<u8, u64>) -> (r: (Book<u8>, Tree<u8>))
    ensures
        book_codes(r.0) == huffman_codes(hashmap@),
        tree_codes(r.1) == huffman_codes(hashmap@),
        book_codes(r.0).dom() == hashmap@.dom(),
        prefix_free(book_codes(r.0)),
{
    CodeBuilder::from_iter(hashmap).finish()
}

/// `Book::get`: a copy of the code word of a symbol, or `None` for a symbol
/// that the book does not hold.
#[verifier::external_body]
fn book_get(book: &Book<u8>, symbol: u8) -> (r: Option<BitVec>)
    ensures
        r.is_some() == book_codes(*book).contains_key(symbol),
        r matches Some(code) ==> bits_of(code) == book_codes(*book)[symbol],
{
    book.get(&symbol).cloned()
}

/// `Tree::decoder`, asked for one symbol on the bits from `start` on: it
/// walks from the root along the bits to a leaf and gives the symbol of the
/// leaf, or `None` when the bits end before a leaf is reached.
#[verifier::external_body]
fn tree_decode(tree: &Tree<u8>, bits: &BitVec, start: usize) -> (r: Option<u8>)
    requires
        start <= bits_of(*bits).len(),
    ensures
        match r {
            Some(s) => decodes_to(tree_codes(*tree), bits_of(*bits).skip(start as int), s),
            None => forall|s: u8|
                !decodes_to(tree_codes(*tree), bits_of(*bits).skip(start as int), s),
        },
{
    tree.decoder(bits.iter().skip(start), 1).next()
}

/// A Huffman code: the book and the tree that belong to one weight table.
pub struct Codebook {
    book: Book<u8>,
    tree: Tree<u8>,
}

impl Codebook {
    /// The code word of each symbol.
    pub closed spec fn codes(&self) -> Map<u8, Seq<bool>> {
        book_codes(self.book)
    }

    /// The tree decodes what the book encodes, and the code is prefix-free.
    pub closed spec fn wf(&self) -> bool {
        tree_codes(self.tree) == book_codes(self.book) && prefix_free(book_codes(self.book))
    }

    /// The Huffman code for a weight table.
    pub fn new(weights: &HashMap<u8, u64>) -> (r: Codebook)
        ensures
            r.wf(),
            r.codes() == huffman_codes(weights@),
            r.codes().dom() == weights@.dom(),
            prefix_free(r.codes()),
    {
        let (book, tree) = convert_hashmap_to_weights(weights);
        Codebook { book, tree }
    }

    /// The code word of a symbol.
    pub fn code_of(&self, symbol: u8) -> (r: Option<BitVec>)
        ensures
            r.is_some() == self.codes().contains_key(symbol),
            r matches Some(code) ==> bits_of(code) == self.codes()[symbol],
    {
        book_get(&self.book, symbol)
    }

    /// Writes the code word of a symbol to the end of `buffer`. A symbol
    /// without a code word is refused with `IndexOverflow`, a code word that
    /// would make the buffer longer than a bit string can be with
    /// `SerializationFailure`; the buffer is then left as it was.
    pub fn encode(&self, buffer: &mut BitVec, symbol: u8) -> (r: Result<(), EncodeError>)
        ensures
            r == encode_step_result(self.codes(), bits_of(*old(buffer)), symbol),
            bits_of(*final(buffer)) == encode_step_bits(self.codes(), bits_of(*old(buffer)), symbol),
    {
        match book_get(&self.book, symbol) {
            None => Err(EncodeError::IndexOverflow),
            Some(code) => {
                let mut code = code;
                if bitvec_len(&code) > usize::MAX - bitvec_len(buffer) {
                    Err(EncodeError::SerializationFailure)
                } else {
                    bitvec_append(buffer, &mut code);
                    Ok(())
                }
            },
        }
    }

    /// Reads one symbol from the bits that begin at `start`: the symbol with
    /// whose code word they begin, or `None` when they begin with none.
    pub fn decode_at(&self, bits: &BitVec, start: usize) -> (r: Option<u8>)
        requires
            self.wf(),
            start <= bits_of(*bits).len(),
        ensures
            r == first_symbol(self.codes(), bits_of(*bits).skip(start as int)),
    {
        let r = tree_decode(&self.tree, bits, start);
        proof {
            let rest = bits_of(*bits).skip(start as int);
            match r {
                Some(s) => lemma_first_symbol(self.codes(), rest, s),
                None => {},
            }
        }
        r
    }
}

/// Whether the code word of a symbol can be written behind `buffer`.
pub open spec fn encode_step_result(
    codes: Map<u8, Seq<bool>>,
    buffer: Seq<bool>,
    symbol: u8,
) -> Result<(), EncodeError> {
    if !codes.contains_key(symbol) {
        Err(EncodeError::IndexOverflow)
    } else if buffer.len() + codes[symbol].len() > usize::MAX {
        Err(EncodeError::SerializationFailure)
    } else {
        Ok(())
    }
}

/// The buffer after the code word of a symbol was written behind it, or the
/// buffer itself where that cannot be done.
pub open spec fn encode_step_bits(
    codes: Map<u8, Seq<bool>>,
    buffer: Seq<bool>,
    symbol: u8,
) -> Seq<bool> {
    if encode_step_result(codes, buffer, symbol).is_ok() {
        buffer + codes[symbol]
    } else {
        buffer
    }
}

} // verus!
