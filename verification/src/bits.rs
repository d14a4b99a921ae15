//! Bit strings: the `BitVec` of the `bit-vec` crate seen as a `Seq<bool>`,
//! together with the conversions between bits, bytes and small integers that
//! the framing of a compressed game needs.

use bit_vec::BitVec;
use vstd::prelude::*;

verus! {

/// A growable string of bits, stored in blocks of the type `B`.
#[verifier::external_type_specification]
#[verifier::external_body]
#[verifier::reject_recursive_types(B)]
pub struct ExBitVec<B>(bit_vec::BitVec<B>);

/// The bits that a `BitVec` holds, first bit first.
pub uninterp spec fn bits_of(b: BitVec) -> Seq<bool>;

/// Bit `k` of a byte, counted from the most significant bit (`k == 0`).
pub open spec fn byte_bit(b: u8, k: int) -> bool {
    if k == 0 {
        b / 128 % 2 == 1
    } else if k == 1 {
        b / 64 % 2 == 1
    } else if k == 2 {
        b / 32 % 2 == 1
    } else if k == 3 {
        b / 16 % 2 == 1
    } else if k == 4 {
        b / 8 % 2 == 1
    } else if k == 5 {
        b / 4 % 2 == 1
    } else if k == 6 {
        b / 2 % 2 == 1
    } else {
        b % 2 == 1
    }
}

/// The bits of a byte string: eight per byte, most significant bit first.
pub open spec fn bytes_to_bits(bytes: Seq<u8>) -> Seq<bool> {
    Seq::new(bytes.len() * 8, |i: int| byte_bit(bytes[i / 8], i % 8))
}

/// Bit `i` of a bit string, `false` past its end.
pub open spec fn bit_or_pad(bits: Seq<bool>, i: int) -> bool {
    0 <= i < bits.len() && bits[i]
}

/// The value of a bit as a summand of weight `w`.
pub open spec fn bit_weight(bit: bool, w: int) -> int {
    if bit {
        w
    } else {
        0
    }
}

/// The byte whose eight bits, most significant first, are bits `8 * i` to
/// `8 * i + 7` of `bits`, with `false` past the end.
pub open spec fn packed_byte(bits: Seq<bool>, i: int) -> u8 {
    (bit_weight(bit_or_pad(bits, 8 * i), 128) + bit_weight(bit_or_pad(bits, 8 * i + 1), 64)
        + bit_weight(bit_or_pad(bits, 8 * i + 2), 32) + bit_weight(bit_or_pad(bits, 8 * i + 3), 16)
        + bit_weight(bit_or_pad(bits, 8 * i + 4), 8) + bit_weight(bit_or_pad(bits, 8 * i + 5), 4)
        + bit_weight(bit_or_pad(bits, 8 * i + 6), 2) + bit_weight(
        bit_or_pad(bits, 8 * i + 7),
        1,
    )) as u8
}

/// The bytes of a bit string: the last byte is filled up with `false` bits.
pub open spec fn bits_to_bytes(bits: Seq<bool>) -> Seq<u8> {
    Seq::new(((bits.len() + 7) / 8) as nat, |i: int| packed_byte(bits, i))
}

/// `BitVec::new`: a bit string without bits.
#[verifier::external_body]
pub(crate) fn bitvec_new() -> (r: BitVec)
    ensures
        bits_of(r) == Seq::<bool>::empty(),
{
    BitVec::new()
}

/// `BitVec::len`: the number of bits held.
#[verifier::external_body]
pub(crate) fn bitvec_len(b: &BitVec) -> (r: usize)
    ensures
        r == bits_of(*b).len(),
{
    b.len()
}

/// `BitVec::push`: one more bit at the end. The crate panics when the length
/// would pass `usize::MAX`.
#[verifier::external_body]
pub(crate) fn bitvec_push(b: &mut BitVec, bit: bool)
    requires
        bits_of(*old(b)).len() < usize::MAX,
    ensures
        bits_of(*final(b)) == bits_of(*old(b)).push(bit),
{
    b.push(bit)
}

/// `BitVec::get`: the bit at `i`, or `None` past the end.
#[verifier::external_body]
pub(crate) fn bitvec_get(b: &BitVec, i: usize) -> (r: Option<bool>)
    ensures
        r == if i < bits_of(*b).len() {
            Some(bits_of(*b)[i as int])
        } else {
            None
        },
{
    b.get(i)
}

/// `BitVec::from_bytes`: eight bits for each byte, the most significant bit
/// of each byte first. The crate panics when the number of bits overflows.
#[verifier::external_body]
pub(crate) fn bitvec_from_bytes(bytes: &[u8]) -> (r: BitVec)
    requires
        bytes@.len() * 8 <= usize::MAX,
    ensures
        bits_of(r) == bytes_to_bits(bytes@),
{
    BitVec::from_bytes(bytes)
}

/// `BitVec::to_bytes`: the bits packed eight to a byte, most significant bit
/// first, the last byte filled up with zero bits.
#[verifier::external_body]
pub(crate) fn bitvec_to_bytes(b: &BitVec) -> (r: Vec<u8>)
    ensures
        r@ == bits_to_bytes(bits_of(*b)),
{
    b.to_bytes()
}

/// `BitVec::append`: moves all bits of `other` to the end of `b`.
#[verifier::external_body]
pub(crate) fn bitvec_append(b: &mut BitVec, other: &mut BitVec)
    requires
        bits_of(*old(b)).len() + bits_of(*old(other)).len() <= usize::MAX,
    ensures
        bits_of(*final(b)) == bits_of(*old(b)) + bits_of(*old(other)),
        bits_of(*final(other)) == Seq::<bool>::empty(),
{
    b.append(other)
}

/// The error of a slice whose bounds do not lie in the bit string.
#[derive(Debug, Clone, Copy, PartialEq, Eq, Structural)]
pub struct InvalidIndices {
    pub start: usize,
    pub end: usize,
    pub len: usize,
}

/// The eight bits of a signed byte in two's complement, sign bit first.
pub open spec fn i8_bits(i: i8) -> Seq<bool> {
    Seq::new(8, |k: int| byte_bit(i as u8, k))
}

/// Converts an `i8` to a bit string of length 8, most significant bit first.
pub fn i8_to_bit_vec(i: i8) -> (r: BitVec)
    ensures
        bits_of(r) == i8_bits(i),
{
    let mut bit_vec = bitvec_new();
    let mut j: u32 = 8;
    while j > 0
        invariant
            j <= 8,
            bits_of(bit_vec).len() == 8 - j,
            forall|k: int| 0 <= k < 8 - j ==> bits_of(bit_vec)[k] == byte_bit(i as u8, k),
        decreases j,
    {
        j = j - 1;
        let bit = (i >> j) & 1 == 1;
        assert(bit == byte_bit(i as u8, 7 - j as int)) by {
            lemma_shifted_bit(i, j);
        }
        bitvec_push(&mut bit_vec, bit);
    }
    assert(bits_of(bit_vec) =~= i8_bits(i));
    bit_vec
}

/// Shifting a signed byte right by `j` and masking gives bit `7 - j` of its
/// two's complement.
proof fn lemma_shifted_bit(i: i8, j: u32)
    requires
        j < 8,
    ensures
        ((i >> j) & 1 == 1) == byte_bit(i as u8, 7 - j as int),
{
    let b = i as u8;
    assert(j == 0 ==> ((i >> j) & 1 == 1) == ((i as u8) % 2 == 1)) by (bit_vector);
    assert(j == 1 ==> ((i >> j) & 1 == 1) == ((i as u8) / 2 % 2 == 1)) by (bit_vector);
    assert(j == 2 ==> ((i >> j) & 1 == 1) == ((i as u8) / 4 % 2 == 1)) by (bit_vector);
    assert(j == 3 ==> ((i >> j) & 1 == 1) == ((i as u8) / 8 % 2 == 1)) by (bit_vector);
    assert(j == 4 ==> ((i >> j) & 1 == 1) == ((i as u8) / 16 % 2 == 1)) by (bit_vector);
    assert(j == 5 ==> ((i >> j) & 1 == 1) == ((i as u8) / 32 % 2 == 1)) by (bit_vector);
    assert(j == 6 ==> ((i >> j) & 1 == 1) == ((i as u8) / 64 % 2 == 1)) by (bit_vector);
    assert(j == 7 ==> ((i >> j) & 1 == 1) == ((i as u8) / 128 % 2 == 1)) by (bit_vector);
}

/// Gets the bits from `start` (inclusive) to `end` (exclusive).
pub fn get_bitvec_slice(bit_vec: &BitVec, start: usize, end: usize) -> (r: Result<
    BitVec,
    InvalidIndices,
>)
    ensures
        start <= end <= bits_of(*bit_vec).len() ==> r.is_ok() && bits_of(r.unwrap()) == bits_of(
            *bit_vec,
        ).subrange(start as int, end as int),
        !(start <= end <= bits_of(*bit_vec).len()) ==> r == Err::<BitVec, InvalidIndices>(
            (InvalidIndices { start, end, len: bits_of(*bit_vec).len() as usize }),
        ),
{
    let len = bitvec_len(bit_vec);
    if start > end || start > len || end > len {
        return Err(InvalidIndices { start, end, len });
    }
    let mut result = bitvec_new();
    let mut i = start;
    while i < end
        invariant
            start <= i <= end <= len,
            len == bits_of(*bit_vec).len(),
            bits_of(result) == bits_of(*bit_vec).subrange(start as int, i as int),
        decreases end - i,
    {
        let bit = match bitvec_get(bit_vec, i) {
            Some(bit) => bit,
            None => false,
        };
        bitvec_push(&mut result, bit);
        i = i + 1;
        assert(bits_of(result) =~= bits_of(*bit_vec).subrange(start as int, i as int));
    }
    Ok(result)
}

/// A byte is the sum of its bits, each with its weight.
pub proof fn lemma_byte_of_its_bits(b: u8)
    ensures
        bit_weight(byte_bit(b, 0), 128) + bit_weight(byte_bit(b, 1), 64) + bit_weight(
            byte_bit(b, 2),
            32,
        ) + bit_weight(byte_bit(b, 3), 16) + bit_weight(byte_bit(b, 4), 8) + bit_weight(
            byte_bit(b, 5),
            4,
        ) + bit_weight(byte_bit(b, 6), 2) + bit_weight(byte_bit(b, 7), 1) == b,
{
    let n = b as int;
    assert(n == 2 * (n / 2) + n % 2);
    assert(n / 2 == 2 * (n / 4) + n / 2 % 2);
    assert(n / 4 == 2 * (n / 8) + n / 4 % 2);
    assert(n / 8 == 2 * (n / 16) + n / 8 % 2);
    assert(n / 16 == 2 * (n / 32) + n / 16 % 2);
    assert(n / 32 == 2 * (n / 64) + n / 32 % 2);
    assert(n / 64 == 2 * (n / 128) + n / 64 % 2);
    assert(n / 128 == n / 128 % 2);
}

/// Bytes turned into bits and packed again are the same bytes.
pub proof fn lemma_bytes_bits_round_trip(bytes: Seq<u8>)
    ensures
        bits_to_bytes(bytes_to_bits(bytes)) == bytes,
{
    let bits = bytes_to_bits(bytes);
    assert forall|i: int| 0 <= i < bytes.len() implies packed_byte(bits, i) == bytes[i] by {
        lemma_byte_of_its_bits(bytes[i]);
        assert(forall|k: int| 0 <= k < 8 ==> bit_or_pad(bits, 8 * i + k) == byte_bit(bytes[i], k));
    }
    assert(bits_to_bytes(bits) =~= bytes);
}

/// The prefix of a block of tags: the first bit of the length of a block
/// of at most 127 bytes is 0, and the eight bits read back as the length.
pub proof fn lemma_length_prefix(n: int, rest: Seq<bool>)
    requires
        0 <= n <= 127,
    ensures
        !(i8_bits(n as i8) + rest)[0],
        packed_byte(i8_bits(n as i8) + rest, 0) == n,
{
    let bits = i8_bits(n as i8) + rest;
    let b = (n as i8) as u8;
    assert(b == n);
    lemma_byte_of_its_bits(b);
    assert(forall|k: int| 0 <= k < 8 ==> bit_or_pad(bits, k) == byte_bit(b, k));
}

} // verus!
