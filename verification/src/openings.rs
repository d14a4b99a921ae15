//! Lists of openings: the lines of a table of openings whose moves are
//! many enough, the number of an opening as a bit string, and a book of
//! numbered openings in which the `trie-rs` crate finds the openings with
//! which a text begins.

use crate::bits::{bits_of, bitvec_new, bitvec_push};
use crate::text::{chars_of, string_of};
use bit_vec::BitVec;
use trie_rs::{Trie, TrieBuilder};
use vstd::prelude::*;
use vstd::utf8::encode_utf8;

verus! {

/// The least number of moves of an opening that is listed.
pub const MIN_OPENING_LENGTH: usize = 4;

/// Blank, tab, line feed, form feed or carriage return.
pub open spec fn is_ascii_space(c: char) -> bool {
    c == ' ' || c == '\t' || c == '\n' || c == '\x0C' || c == '\r'
}

/// The number of words that begin among the first `n` characters: a word
/// begins with a character that is no space and follows a space or nothing.
pub open spec fn word_count(s: Seq<char>, n: int) -> nat
    decreases n,
{
    if n <= 0 {
        0
    } else if !is_ascii_space(s[n - 1]) && (n == 1 || is_ascii_space(s[n - 2])) {
        word_count(s, n - 1) + 1
    } else {
        word_count(s, n - 1)
    }
}

/// The number of tabs among the first `n` characters.
pub open spec fn tab_count(s: Seq<char>, n: int) -> nat
    decreases n,
{
    if n <= 0 {
        0
    } else if s[n - 1] == '\t' {
        tab_count(s, n - 1) + 1
    } else {
        tab_count(s, n - 1)
    }
}

/// Those of the first `n` characters that stand in column `k` of a line
/// whose columns are parted by tabs.
pub open spec fn column_prefix(s: Seq<char>, k: nat, n: int) -> Seq<char>
    decreases n,
{
    if n <= 0 {
        Seq::empty()
    } else if s[n - 1] != '\t' && tab_count(s, n - 1) == k {
        column_prefix(s, k, n - 1).push(s[n - 1])
    } else {
        column_prefix(s, k, n - 1)
    }
}

/// Column `k` of a line, if the line has that many columns.
pub open spec fn column(s: Seq<char>, k: nat) -> Option<Seq<char>> {
    if tab_count(s, s.len() as int) >= k {
        Some(column_prefix(s, k, s.len() as int))
    } else {
        None
    }
}

/// A line without the carriage return that ended it.
pub open spec fn strip_cr(line: Seq<char>) -> Seq<char> {
    if line.len() > 0 && line.last() == '\r' {
        line.drop_last()
    } else {
        line
    }
}

/// The lines that end among the first `n` characters, and what follows the
/// last of them: a line ends with a line feed, before which a carriage
/// return does not count.
pub open spec fn lines_state(s: Seq<char>, n: int) -> (Seq<Seq<char>>, Seq<char>)
    decreases n,
{
    if n <= 0 {
        (Seq::empty(), Seq::empty())
    } else {
        let (done, current) = lines_state(s, n - 1);
        if s[n - 1] == '\n' {
            (done.push(strip_cr(current)), Seq::empty())
        } else {
            (done, current.push(s[n - 1]))
        }
    }
}

/// The lines of a text; the last line need not end with a line feed.
pub open spec fn lines_of(s: Seq<char>) -> Seq<Seq<char>> {
    let (done, current) = lines_state(s, s.len() as int);
    if current.len() > 0 {
        done.push(current)
    } else {
        done
    }
}

/// The texts of a list of lists of characters.
pub open spec fn texts(lines: Seq<Vec<char>>) -> Seq<Seq<char>> {
    Seq::new(lines.len(), |i: int| lines[i]@)
}

/// The texts of a list of strings.
pub open spec fn strings(list: Seq<String>) -> Seq<Seq<char>> {
    Seq::new(list.len(), |i: int| list[i]@)
}

/// The number of words of a line.
pub fn count_words(line: &Vec<char>) -> (r: usize)
    ensures
        r == word_count(line@, line@.len() as int),
{
    let mut count: usize = 0;
    let mut i: usize = 0;
    while i < line.len()
        invariant
            i <= line@.len(),
            count == word_count(line@, i as int),
            count <= i,
        decreases line@.len() - i,
    {
        let c = line[i];
        let space = c == ' ' || c == '\t' || c == '\n' || c == '\x0C' || c == '\r';
        let after_space = if i == 0 {
            true
        } else {
            let p = line[i - 1];
            p == ' ' || p == '\t' || p == '\n' || p == '\x0C' || p == '\r'
        };
        if !space && after_space {
            count = count + 1;
        }
        i = i + 1;
    }
    count
}

/// Column `k` of a line whose columns are parted by tabs.
pub fn column_of(line: &Vec<char>, k: usize) -> (r: Option<Vec<char>>)
    ensures
        match r {
            Some(found) => column(line@, k as nat) == Some(found@),
            None => column(line@, k as nat).is_none(),
        },
{
    let mut found: Vec<char> = Vec::new();
    let mut tabs: usize = 0;
    let mut i: usize = 0;
    while i < line.len()
        invariant
            i <= line@.len(),
            tabs == tab_count(line@, i as int),
            tabs <= i,
            found@ == column_prefix(line@, k as nat, i as int),
        decreases line@.len() - i,
    {
        let c = line[i];
        if c == '\t' {
            tabs = tabs + 1;
        } else if tabs == k {
            found.push(c);
        }
        i = i + 1;
    }
    if tabs >= k {
        Some(found)
    } else {
        None
    }
}

/// The lines of a text.
pub fn split_lines(text: &Vec<char>) -> (r: Vec<Vec<char>>)
    ensures
        texts(r@) == lines_of(text@),
{
    let mut done: Vec<Vec<char>> = Vec::new();
    let mut current: Vec<char> = Vec::new();
    let mut i: usize = 0;
    assert(texts(done@) =~= Seq::empty());
    while i < text.len()
        invariant
            i <= text@.len(),
            (texts(done@), current@) == lines_state(text@, i as int),
        decreases text@.len() - i,
    {
        let c = text[i];
        if c == '\n' {
            if current.len() > 0 && current[current.len() - 1] == '\r' {
                current.pop();
            }
            let ghost before = texts(done@);
            let ghost line = current@;
            done.push(current);
            current = Vec::new();
            assert(texts(done@) =~= before.push(line));
        } else {
            current.push(c);
        }
        i = i + 1;
    }
    if current.len() > 0 {
        let ghost before = texts(done@);
        let ghost line = current@;
        done.push(current);
        assert(texts(done@) =~= before.push(line));
    }
    done
}

/// Whether a line of a table of openings lists an opening that is long
/// enough: its third column has at least `min_moves` words.
pub open spec fn lists_opening(line: Seq<char>, min_moves: nat) -> bool {
    column(line, 2) matches Some(moves) && word_count(moves, moves.len() as int) >= min_moves
}

/// The openings among the first `n` lines of a table: the third column of
/// every line that lists an opening of at least `min_moves` moves.
pub open spec fn openings_among(lines: Seq<Seq<char>>, min_moves: nat, n: int) -> Seq<Seq<char>>
    decreases n,
{
    if n <= 0 {
        Seq::empty()
    } else if lists_opening(lines[n - 1], min_moves) {
        openings_among(lines, min_moves, n - 1).push(column(lines[n - 1], 2).unwrap())
    } else {
        openings_among(lines, min_moves, n - 1)
    }
}

/// Those among the first `n` lines that have at least `min_moves` words.
pub open spec fn long_lines_among(lines: Seq<Seq<char>>, min_moves: nat, n: int) -> Seq<Seq<char>>
    decreases n,
{
    if n <= 0 {
        Seq::empty()
    } else if word_count(lines[n - 1], lines[n - 1].len() as int) >= min_moves {
        long_lines_among(lines, min_moves, n - 1).push(lines[n - 1])
    } else {
        long_lines_among(lines, min_moves, n - 1)
    }
}

/// Extracts the openings from a table with tabs between its columns: from
/// every line the moves in its third column, if they are four or more.
pub fn extract_openings(tsv_contents: &str) -> (r: Vec<String>)
    ensures
        strings(r@) == openings_among(
            lines_of(tsv_contents@),
            MIN_OPENING_LENGTH as nat,
            lines_of(tsv_contents@).len() as int,
        ),
{
    let lines = split_lines(&chars_of(tsv_contents));
    let mut openings: Vec<String> = Vec::new();
    let mut i: usize = 0;
    assert(strings(openings@) =~= Seq::empty());
    while i < lines.len()
        invariant
            i <= lines@.len(),
            texts(lines@) == lines_of(tsv_contents@),
            strings(openings@) == openings_among(texts(lines@), MIN_OPENING_LENGTH as nat, i as int),
        decreases lines@.len() - i,
    {
        assert(texts(lines@)[i as int] == lines@[i as int]@);
        match column_of(&lines[i], 2) {
            Some(moves) => {
                if count_words(&moves) >= MIN_OPENING_LENGTH {
                    let ghost before = strings(openings@);
                    let opening = string_of(&moves);
                    openings.push(opening);
                    assert(strings(openings@) =~= before.push(moves@));
                }
            },
            None => {},
        }
        i = i + 1;
    }
    openings
}

/// Extracts the openings from a list with one opening to a line: every
/// line that has at least `min_opening_moves` words.
pub fn extract_long_openings(txt_contents: &str, min_opening_moves: usize) -> (r: Vec<String>)
    ensures
        strings(r@) == long_lines_among(
            lines_of(txt_contents@),
            min_opening_moves as nat,
            lines_of(txt_contents@).len() as int,
        ),
{
    let lines = split_lines(&chars_of(txt_contents));
    let mut openings: Vec<String> = Vec::new();
    let mut i: usize = 0;
    assert(strings(openings@) =~= Seq::empty());
    while i < lines.len()
        invariant
            i <= lines@.len(),
            texts(lines@) == lines_of(txt_contents@),
            strings(openings@) == long_lines_among(
                texts(lines@),
                min_opening_moves as nat,
                i as int,
            ),
        decreases lines@.len() - i,
    {
        assert(texts(lines@)[i as int] == lines@[i as int]@);
        if count_words(&lines[i]) >= min_opening_moves {
            let ghost before = strings(openings@);
            let opening = string_of(&lines[i]);
            openings.push(opening);
            assert(strings(openings@) =~= before.push(lines@[i as int]@));
        }
        i = i + 1;
    }
    openings
}

/// The number does not fit the given number of bits.
#[derive(Debug, Clone, Copy, PartialEq, Eq, Structural)]
pub struct TooLarge {
    pub number: usize,
    pub bits: usize,
}

/// Bit `j` of a number, counted from the least significant bit.
pub open spec fn number_bit(i: usize, j: int) -> bool {
    0 <= j < 64 && (i as u64 >> (j as u64)) & 1 == 1
}

/// A number fits `len` bits if it has no bit above them.
pub open spec fn fits_bits(i: usize, len: usize) -> bool {
    len >= 64 || (i as u64 >> (len as u64)) == 0
}

/// A number in `len` bits, most significant bit first.
pub open spec fn number_bits(i: usize, len: usize) -> Seq<bool> {
    Seq::new(len as nat, |k: int| number_bit(i, len - 1 - k))
}

/// Converts a number to a bit string of a given length, most significant
/// bit first; a number with more bits than that is refused.
pub fn usize_to_bitvec(i: usize, bitvec_len: usize) -> (r: Result<BitVec, TooLarge>)
    ensures
        match r {
            Ok(b) => fits_bits(i, bitvec_len) && bits_of(b) == number_bits(i, bitvec_len),
            Err(e) => !fits_bits(i, bitvec_len) && e == (TooLarge { number: i, bits: bitvec_len }),
        },
{
    if bitvec_len < 64 && (i as u64 >> (bitvec_len as u64)) != 0 {
        return Err(TooLarge { number: i, bits: bitvec_len });
    }
    let mut bit_vec = bitvec_new();
    let mut j: usize = bitvec_len;
    while j > 0
        invariant
            j <= bitvec_len,
            bits_of(bit_vec).len() == bitvec_len - j,
            forall|k: int|
                0 <= k < bitvec_len - j ==> bits_of(bit_vec)[k] == number_bit(i, bitvec_len - 1 - k),
        decreases j,
    {
        j = j - 1;
        let bit = j < 64 && (i as u64 >> (j as u64)) & 1 == 1;
        bitvec_push(&mut bit_vec, bit);
    }
    assert(bits_of(bit_vec) =~= number_bits(i, bitvec_len));
    Ok(bit_vec)
}

/// Converts a number to a bit string of length 12.
pub fn usize_to_u12_vec(i: usize) -> (r: Result<BitVec, TooLarge>)
    ensures
        match r {
            Ok(b) => fits_bits(i, 12) && bits_of(b) == number_bits(i, 12),
            Err(e) => !fits_bits(i, 12) && e == (TooLarge { number: i, bits: 12 }),
        },
{
    usize_to_bitvec(i, 12)
}

/// A trie of words over the labels `Label`.
#[verifier::external_type_specification]
#[verifier::external_body]
#[verifier::reject_recursive_types(Label)]
pub struct ExTrie<Label>(trie_rs::Trie<Label>);

/// A trie in the making.
#[verifier::external_type_specification]
#[verifier::external_body]
#[verifier::reject_recursive_types(Label)]
pub struct ExTrieBuilder<Label>(trie_rs::TrieBuilder<Label>);

/// The words that were pushed to a builder, in the order of the pushes.
pub uninterp spec fn builder_words(builder: TrieBuilder<u8>) -> Seq<Seq<u8>>;

/// The words that were pushed to the builder of a trie, in the order of the
/// pushes.
pub uninterp spec fn trie_words(trie: Trie<u8>) -> Seq<Seq<u8>>;

/// `a` is the beginning of `b`.
pub open spec fn begins(a: Seq<u8>, b: Seq<u8>) -> bool {
    a.len() <= b.len() && b.take(a.len() as int) == a
}

/// The word pushed at `i` is an entry of the trie: it is not empty, and it
/// is not the beginning of a word that was pushed before it. (A push ends
/// an entry only at a node that it makes.)
pub open spec fn is_entry(words: Seq<Seq<u8>>, i: int) -> bool {
    &&& 0 <= i < words.len()
    &&& words[i].len() > 0
    &&& forall|j: int| 0 <= j < i ==> !begins(words[i], #[trigger] words[j])
}

/// `entry` is an entry of the trie made from `words`.
pub open spec fn has_entry(words: Seq<Seq<u8>>, entry: Seq<u8>) -> bool {
    exists|i: int| is_entry(words, i) && words[i] == entry
}

/// `TrieBuilder::new`: a builder to which nothing was pushed.
#[verifier::external_body]
fn trie_builder_new() -> (r: TrieBuilder<u8>)
    ensures
        builder_words(r) == Seq::<Seq<u8>>::empty(),
{
    TrieBuilder::new()
}

/// `TrieBuilder::push`: one more word, the bytes of `entry`.
#[verifier::external_body]
fn trie_builder_push(builder: &mut TrieBuilder<u8>, entry: &str)
    ensures
        builder_words(*final(builder)) == builder_words(*old(builder)).push(encode_utf8(entry@)),
{
    builder.push(entry)
}

/// `TrieBuilder::build`: the trie of the words that were pushed.
#[verifier::external_body]
fn trie_builder_build(builder: &TrieBuilder<u8>) -> (r: Trie<u8>)
    ensures
        trie_words(r) == builder_words(*builder),
{
    builder.build()
}

/// `Trie::common_prefix_search`: the entries of the trie with which the
/// query begins, the shorter before the longer. The search walks down the
/// trie along the query and takes every node at which an entry ends.
#[verifier::external_body]
fn trie_common_prefix_search(trie: &Trie<u8>, query: &str) -> (r: Vec<Vec<u8>>)
    ensures
        forall|k: int|
            0 <= k < r@.len() ==> has_entry(trie_words(*trie), (#[trigger] r@[k])@) && begins(
                r@[k]@,
                encode_utf8(query@),
            ),
        forall|entry: Seq<u8>|
            has_entry(trie_words(*trie), entry) && begins(entry, encode_utf8(query@)) ==> exists|
                k: int,
            |
                0 <= k < r@.len() && (#[trigger] r@[k])@ == entry,
        forall|k: int, l: int| 0 <= k < l < r@.len() ==> r@[k]@.len() < r@[l]@.len(),
{
    trie.common_prefix_search(query)
}

/// The bytes of a list of texts.
pub open spec fn words_of(openings: Seq<Seq<char>>) -> Seq<Seq<u8>> {
    Seq::new(openings.len(), |i: int| encode_utf8(openings[i]))
}

/// The opening at `j` is the last in the list that reads as it does.
pub open spec fn is_last_of_its_text(openings: Seq<Seq<char>>, j: int) -> bool {
    &&& 0 <= j < openings.len()
    &&& forall|k: int|
        j < k < openings.len() ==> encode_utf8(#[trigger] openings[k]) != encode_utf8(openings[j])
}

/// The opening at `j` is the one that stands for the beginning of `text`:
/// it is an entry of the trie with which the text begins, no longer entry
/// begins the text, and it is the last opening that reads as it does.
pub open spec fn is_opening_of(openings: Seq<Seq<char>>, text: Seq<char>, j: int) -> bool {
    &&& is_last_of_its_text(openings, j)
    &&& has_entry(words_of(openings), encode_utf8(openings[j]))
    &&& begins(encode_utf8(openings[j]), encode_utf8(text))
    &&& forall|entry: Seq<u8>|
        has_entry(words_of(openings), entry) && begins(entry, encode_utf8(text)) ==> entry.len()
            <= encode_utf8(openings[j]).len()
}

/// No entry of the trie begins `text`.
pub open spec fn no_opening_of(openings: Seq<Seq<char>>, text: Seq<char>) -> bool {
    forall|entry: Seq<u8>|
        has_entry(words_of(openings), entry) ==> !begins(entry, encode_utf8(text))
}

/// The opening that stands for the beginning of a text, if there is one.
pub open spec fn opening_of(openings: Seq<Seq<char>>, text: Seq<char>) -> Option<int> {
    if exists|j: int| is_opening_of(openings, text, j) {
        Some(choose|j: int| is_opening_of(openings, text, j))
    } else {
        None
    }
}

/// A text has at most one opening that stands for its beginning.
pub proof fn lemma_opening_of(openings: Seq<Seq<char>>, text: Seq<char>, j: int)
    requires
        is_opening_of(openings, text, j),
    ensures
        opening_of(openings, text) == Some(j),
{
    let c = choose|c: int| is_opening_of(openings, text, c);
    let a = encode_utf8(openings[j]);
    let b = encode_utf8(openings[c]);
    let t = encode_utf8(text);
    assert(a.len() == b.len());
    assert(a =~= t.take(a.len() as int));
    assert(b =~= t.take(b.len() as int));
    if c < j {
        assert(encode_utf8(openings[j]) != encode_utf8(openings[c]));
    }
    if j < c {
        assert(encode_utf8(openings[c]) != encode_utf8(openings[j]));
    }
}

/// Whether two byte strings are the same.
pub fn bytes_equal(a: &[u8], b: &[u8]) -> (r: bool)
    ensures
        r == (a@ == b@),
{
    if a.len() != b.len() {
        return false;
    }
    let mut i: usize = 0;
    while i < a.len()
        invariant
            i <= a@.len(),
            a@.len() == b@.len(),
            forall|k: int| 0 <= k < i ==> a@[k] == b@[k],
        decreases a@.len() - i,
    {
        if a[i] != b[i] {
            return false;
        }
        i = i + 1;
    }
    assert(a@ =~= b@);
    true
}

/// A book of openings: the openings in the order of their numbers, and the
/// trie in which the beginnings of texts are looked up.
pub struct OpeningBook {
    trie: Trie<u8>,
    openings: Vec<String>,
    bitvec_len: usize,
}

impl OpeningBook {
    /// The openings, each at the place of its number.
    pub closed spec fn openings(&self) -> Seq<Seq<char>> {
        strings(self.openings@)
    }

    /// The number of bits in which the number of an opening is written.
    pub closed spec fn code_len(&self) -> usize {
        self.bitvec_len
    }

    /// The trie holds the openings, and the number of every opening fits
    /// its bits.
    pub closed spec fn wf(&self) -> bool {
        &&& trie_words(self.trie) == words_of(strings(self.openings@))
        &&& forall|i: usize| i < self.openings@.len() ==> #[trigger] fits_bits(i, self.bitvec_len)
    }

    /// The number of openings.
    pub fn len(&self) -> (r: usize)
        ensures
            r == self.openings().len(),
    {
        self.openings.len()
    }

    /// The number of bits in which the number of an opening is written.
    pub fn bits(&self) -> (r: usize)
        ensures
            r == self.code_len(),
    {
        self.bitvec_len
    }

    /// The opening with the number `i`.
    pub fn opening(&self, i: usize) -> (r: &str)
        requires
            i < self.openings().len(),
        ensures
            r@ == self.openings()[i as int],
    {
        self.openings[i].as_str()
    }

    /// The number `j` of an opening as the bits that stand for it; `None`
    /// for a number that is not the number of an opening.
    pub fn number_of(&self, j: usize) -> (r: Option<BitVec>)
        requires
            self.wf(),
        ensures
            r.is_some() == (j < self.openings().len()),
            r matches Some(b) ==> bits_of(b) == number_bits(j, self.code_len()),
    {
        if j >= self.openings.len() {
            return None;
        }
        assert(fits_bits(j, self.bitvec_len));
        match usize_to_bitvec(j, self.bitvec_len) {
            Ok(b) => Some(b),
            Err(_) => None,
        }
    }

    /// Whether the opening with the number `j` is the last in the book that
    /// reads as it does.
    pub fn is_last(&self, j: usize) -> (r: bool)
        ensures
            r == is_last_of_its_text(self.openings(), j as int),
    {
        if j >= self.openings.len() {
            return false;
        }
        let mut k: usize = j + 1;
        while k < self.openings.len()
            invariant
                j < k <= self.openings@.len(),
                forall|t: int|
                    j < t < k ==> encode_utf8(#[trigger] self.openings()[t]) != encode_utf8(
                        self.openings()[j as int],
                    ),
            decreases self.openings@.len() - k,
        {
            if bytes_equal(self.openings[k].as_str().as_bytes(), self.openings[j].as_str().as_bytes()) {
                assert(encode_utf8(self.openings()[k as int]) == encode_utf8(
                    self.openings()[j as int],
                ));
                return false;
            }
            k = k + 1;
        }
        true
    }

    /// The number of the opening that stands for the beginning of a text:
    /// the longest entry of the trie with which the text begins, under the
    /// last number that it has in the book.
    pub fn find(&self, text: &str) -> (r: Option<usize>)
        requires
            self.wf(),
        ensures
            match r {
                Some(j) => opening_of(self.openings(), text@) == Some(j as int),
                None => opening_of(self.openings(), text@).is_none() && no_opening_of(
                    self.openings(),
                    text@,
                ),
            },
    {
        let matches = trie_common_prefix_search(&self.trie, text);
        if matches.len() == 0 {
            proof {
                assert forall|j: int| !is_opening_of(self.openings(), text@, j) by {}
            }
            return None;
        }
        let longest = &matches[matches.len() - 1];
        let ghost words = words_of(self.openings());
        proof {
            assert(has_entry(words, longest@));
            assert(begins(longest@, encode_utf8(text@)));
        }
        let mut j: usize = self.openings.len();
        while j > 0
            invariant
                j <= self.openings@.len(),
                self.wf(),
                words == words_of(self.openings()),
                matches@.len() > 0,
                longest@ == matches@[matches@.len() - 1]@,
                has_entry(words, longest@),
                begins(longest@, encode_utf8(text@)),
                forall|entry: Seq<u8>|
                    has_entry(trie_words(self.trie), entry) && begins(entry, encode_utf8(text@))
                        ==> exists|k: int| 0 <= k < matches@.len() && (#[trigger] matches@[k])@
                        == entry,
                forall|k: int, l: int|
                    0 <= k < l < matches@.len() ==> matches@[k]@.len() < matches@[l]@.len(),
                forall|k: int|
                    j <= k < self.openings@.len() ==> encode_utf8(#[trigger] self.openings()[k])
                        != longest@,
            decreases j,
        {
            j = j - 1;
            if bytes_equal(self.openings[j].as_str().as_bytes(), longest.as_slice()) {
                proof {
                    let found = encode_utf8(self.openings()[j as int]);
                    assert(found == longest@);
                    assert(is_last_of_its_text(self.openings(), j as int));
                    assert forall|entry: Seq<u8>|
                        has_entry(words, entry) && begins(
                            entry,
                            encode_utf8(text@),
                        ) implies entry.len() <= found.len() by {
                        let k = choose|k: int|
                            0 <= k < matches@.len() && (#[trigger] matches@[k])@ == entry;
                        if k < matches@.len() - 1 {
                            assert(matches@[k]@.len() < matches@[matches@.len() - 1]@.len());
                        }
                    }
                    lemma_opening_of(self.openings(), text@, j as int);
                }
                return Some(j);
            }
        }
        proof {
            // an entry is one of the words, so this is not reached
            let i = choose|i: int| is_entry(words, i) && words[i] == longest@;
            assert(encode_utf8(self.openings()[i]) == longest@);
        }
        None
    }
}

/// The openings that are numbered: those of the list before the first
/// whose number does not fit `bitvec_len` bits.
pub open spec fn numbered(openings: Seq<Seq<char>>, bitvec_len: usize, n: int) -> Seq<Seq<char>>
    decreases n,
{
    if n <= 0 {
        Seq::empty()
    } else if numbered(openings, bitvec_len, n - 1).len() == n - 1 && fits_bits(
        (n - 1) as usize,
        bitvec_len,
    ) {
        numbered(openings, bitvec_len, n - 1).push(openings[n - 1])
    } else {
        numbered(openings, bitvec_len, n - 1)
    }
}

/// Constructs the book of the openings of a list with one opening to a
/// line: the lines of at least `min_opening_moves` words are numbered from
/// 0 on in `bitvec_len` bits, as far as the numbers fit.
pub fn construct_trie_and_hashmap(
    openings_text: &str,
    min_opening_moves: usize,
    bitvec_len: usize,
) -> (r: OpeningBook)
    ensures
        r.wf(),
        r.code_len() == bitvec_len,
        r.openings() == numbered(
            long_lines_among(
                lines_of(openings_text@),
                min_opening_moves as nat,
                lines_of(openings_text@).len() as int,
            ),
            bitvec_len,
            long_lines_among(
                lines_of(openings_text@),
                min_opening_moves as nat,
                lines_of(openings_text@).len() as int,
            ).len() as int,
        ),
{
    let openings = extract_long_openings(openings_text, min_opening_moves);
    let mut trie_builder = trie_builder_new();
    let mut kept: Vec<String> = Vec::new();
    let ghost all = strings(openings@);
    let mut i: usize = 0;
    assert(strings(kept@) =~= Seq::empty());
    assert(words_of(strings(kept@)) =~= Seq::empty());
    while i < openings.len()
        invariant
            i <= openings@.len(),
            all == strings(openings@),
            strings(kept@) == numbered(all, bitvec_len, i as int),
            kept@.len() <= i,
            builder_words(trie_builder) == words_of(strings(kept@)),
            forall|k: usize| k < kept@.len() ==> #[trigger] fits_bits(k, bitvec_len),
        decreases openings@.len() - i,
    {
        if kept.len() == i && (bitvec_len >= 64 || (i as u64 >> (bitvec_len as u64)) == 0) {
            let ghost before = strings(kept@);
            let opening = openings[i].clone();
            trie_builder_push(&mut trie_builder, opening.as_str());
            kept.push(opening);
            assert(strings(kept@) =~= before.push(all[i as int]));
            assert(words_of(strings(kept@)) =~= words_of(before).push(encode_utf8(all[i as int])));
        }
        i = i + 1;
    }
    OpeningBook { trie: trie_builder_build(&trie_builder), openings: kept, bitvec_len }
}

} // verus!
