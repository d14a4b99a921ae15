//! The frame of a compressed game: a prefix that tells whether a block of
//! compressed tags follows and how long it is, the block, and the bits of
//! the moves.

use crate::bits::{
    bit_or_pad, bit_weight, bits_of, bits_to_bytes, bitvec_append, bitvec_from_bytes,
    bitvec_get, bitvec_len, bitvec_new, bitvec_push, bitvec_to_bytes, bytes_to_bits,
    get_bitvec_slice, i8_bits, i8_to_bit_vec, lemma_bytes_bits_round_trip, lemma_length_prefix,
    packed_byte,
};
use crate::error::{DecodeError, EncodeError};
use crate::pgn_data::{HeadersView, PgnData, PgnHeaders};
use crate::serial::{
    bincode_headers, bincode_headers_read, deserialize_headers, lemma_headers_read_back,
    serialize_headers, zlib_compress, zlib_decompress, zlib_deflated, zlib_inflated,
};
use bit_vec::BitVec;
use vstd::prelude::*;

verus! {

/// The block that stands for the tags: nothing where all tags are empty,
/// else the tags serialized and deflated. The block of tags that are not
/// empty has at least one byte and no more bits than a bit string can hold;
/// else, and where the deflater fails, there is none.
pub open spec fn header_block(headers: HeadersView) -> Result<Seq<u8>, EncodeError> {
    if headers.is_empty() {
        Ok(Seq::empty())
    } else {
        match zlib_deflated(bincode_headers(headers)) {
            None => Err(EncodeError::SerializationFailure),
            Some(block) => if block.len() == 0 || block.len() * 8 > usize::MAX {
                Err(EncodeError::SerializationFailure)
            } else {
                Ok(block)
            },
        }
    }
}

/// The bits of the block that stands for the tags.
pub open spec fn header_bits(headers: HeadersView) -> Result<Seq<bool>, EncodeError> {
    match header_block(headers) {
        Ok(block) => Ok(bytes_to_bits(block)),
        Err(e) => Err(e),
    }
}

/// The block reads back as the tags it was made from.
pub open spec fn block_reads_back(headers: HeadersView, block: Seq<u8>) -> bool {
    headers.is_empty() || (zlib_inflated(block) matches Some(raw) && bincode_headers_read(raw)
        == Some(headers))
}

/// Compresses the tags of a game: no bits where all seven tags are empty,
/// else the bits of the serialized and deflated tags, which are whole
/// bytes and at least one. The block that comes out reads back as the tags.
pub fn compress_headers(pgn: &PgnData) -> (r: Result<BitVec, EncodeError>)
    ensures
        (match r {
            Ok(b) => Ok::<Seq<bool>, EncodeError>(bits_of(b)),
            Err(e) => Err(e),
        }) == header_bits(pgn@.headers),
        r matches Ok(b) ==> block_reads_back(pgn@.headers, header_block(pgn@.headers).unwrap())
            && bits_of(b).len() % 8 == 0 && (pgn@.headers.is_empty() || bits_of(b).len() >= 8),
{
    if pgn.headers.is_empty() {
        let empty = bitvec_new();
        assert(bits_of(empty) =~= bytes_to_bits(Seq::empty()));
        return Ok(empty);
    }
    let raw = match serialize_headers(&pgn.headers) {
        Ok(raw) => raw,
        Err(_) => {
            return Err(EncodeError::SerializationFailure);
        },
    };
    let block = match zlib_compress(raw.as_slice()) {
        Ok(block) => block,
        Err(_) => {
            return Err(EncodeError::SerializationFailure);
        },
    };
    if block.len() == 0 || block.len() > usize::MAX / 8 {
        return Err(EncodeError::SerializationFailure);
    }
    let raw_len = raw.len();
    proof {
        assert(raw@.len() == raw_len);
        lemma_headers_read_back(pgn@.headers, Seq::empty());
        assert(raw@ + Seq::<u8>::empty() =~= raw@);
    }
    Ok(bitvec_from_bytes(block.as_slice()))
}

/// The number that the first eight bits write, most significant bit first.
pub open spec fn header_length(bits: Seq<bool>) -> int {
    packed_byte(bits, 0) as int
}

/// What the beginning of a compressed game says of its tags: the tags and
/// the place, in bits, at which the moves begin. A first bit of 1 stands for
/// empty tags and is reported with the place 0 (the moves then begin at bit
/// 1); else the first eight bits give the length in bytes of the block that
/// follows them.
pub open spec fn decompress_headers_spec(bits: Seq<bool>) -> Result<(HeadersView, int), DecodeError> {
    if bits.len() == 0 {
        Err(DecodeError::Truncated)
    } else if bits[0] {
        Ok((HeadersView::empty(), 0))
    } else if bits.len() < 8 + 8 * header_length(bits) {
        Err(DecodeError::Truncated)
    } else {
        match zlib_inflated(bits_to_bytes(bits.subrange(8, 8 + 8 * header_length(bits)))) {
            None => Err(DecodeError::DeserializationFailure),
            Some(raw) => match bincode_headers_read(raw) {
                None => Err(DecodeError::DeserializationFailure),
                Some(headers) => Ok((headers, 8 + 8 * header_length(bits))),
            },
        }
    }
}

/// The place at which the moves begin, given what `decompress_headers`
/// reports.
pub open spec fn body_start(reported: int) -> int {
    if reported == 0 {
        1
    } else {
        reported
    }
}

/// The value of bit `i` as a summand of weight `w`.
fn weigh(bits: &BitVec, i: usize, w: usize) -> (r: usize)
    requires
        w <= 128,
    ensures
        r == bit_weight(bit_or_pad(bits_of(*bits), i as int), w as int),
{
    match bitvec_get(bits, i) {
        Some(true) => w,
        _ => 0,
    }
}

/// Reads the tags from the beginning of a compressed game and tells where
/// the moves begin.
pub fn decompress_headers(bit_vec: &BitVec) -> (r: Result<(PgnHeaders, usize), DecodeError>)
    ensures
        match r {
            Ok((headers, start)) => decompress_headers_spec(bits_of(*bit_vec)) == Ok::<
                (HeadersView, int),
                DecodeError,
            >((headers@, start as int)) && body_start(start as int) <= bits_of(*bit_vec).len(),
            Err(e) => decompress_headers_spec(bits_of(*bit_vec)) == Err::<
                (HeadersView, int),
                DecodeError,
            >(e),
        },
{
    let len = bitvec_len(bit_vec);
    match bitvec_get(bit_vec, 0) {
        None => {
            return Err(DecodeError::Truncated);
        },
        Some(true) => {
            return Ok((PgnHeaders::new(), 0));
        },
        Some(false) => {},
    }
    let header_bytes_len: usize = weigh(bit_vec, 0, 128) + weigh(bit_vec, 1, 64) + weigh(
        bit_vec,
        2,
        32,
    ) + weigh(bit_vec, 3, 16) + weigh(bit_vec, 4, 8) + weigh(bit_vec, 5, 4) + weigh(bit_vec, 6, 2)
        + weigh(bit_vec, 7, 1);
    assert(header_bytes_len == header_length(bits_of(*bit_vec)));
    let end = (header_bytes_len + 1) * 8;
    if len < end {
        return Err(DecodeError::Truncated);
    }
    let block = match get_bitvec_slice(bit_vec, 8, end) {
        Ok(block_bits) => bitvec_to_bytes(&block_bits),
        Err(_) => {
            return Err(DecodeError::Truncated);
        },
    };
    let raw = match zlib_decompress(block.as_slice()) {
        Ok(raw) => raw,
        Err(_) => {
            return Err(DecodeError::DeserializationFailure);
        },
    };
    match deserialize_headers(raw.as_slice()) {
        Ok(headers) => Ok((headers, end)),
        Err(_) => Err(DecodeError::DeserializationFailure),
    }
}

/// A compressed game: one bit 1 and the moves where the tags are empty,
/// else the length in bytes of the block of the tags as a signed byte, the
/// bits of the block and the moves. A block of more than 127 bytes does not
/// fit the prefix.
pub open spec fn frame_spec(tags_empty: bool, block: Seq<bool>, body: Seq<bool>) -> Result<
    Seq<bool>,
    EncodeError,
> {
    if tags_empty {
        if body.len() + 1 > usize::MAX {
            Err(EncodeError::SerializationFailure)
        } else {
            Ok(seq![true] + body)
        }
    } else if (block.len() + 7) / 8 > 127 {
        Err(EncodeError::IndexOverflow)
    } else if 8 + block.len() + body.len() > usize::MAX {
        Err(EncodeError::SerializationFailure)
    } else {
        Ok(i8_bits(((block.len() + 7) / 8) as i8) + block + body)
    }
}

/// Puts the prefix, the bits of the block of the tags and the bits of the
/// moves together.
pub fn frame(tags_empty: bool, headers: BitVec, moves: BitVec) -> (r: Result<BitVec, EncodeError>)
    ensures
        (match r {
            Ok(b) => Ok::<Seq<bool>, EncodeError>(bits_of(b)),
            Err(e) => Err(e),
        }) == frame_spec(tags_empty, bits_of(headers), bits_of(moves)),
{
    let mut headers = headers;
    let mut moves = moves;
    let header_bits = bitvec_len(&headers);
    let move_bits = bitvec_len(&moves);
    let mut encoded_pgn;
    if tags_empty {
        if move_bits > usize::MAX - 1 {
            return Err(EncodeError::SerializationFailure);
        }
        encoded_pgn = bitvec_new();
        bitvec_push(&mut encoded_pgn, true);
        assert(bits_of(encoded_pgn) =~= seq![true]);
    } else {
        let header_bytes = header_bits / 8 + if header_bits % 8 == 0 {
            0
        } else {
            1
        };
        if header_bytes > 127 {
            return Err(EncodeError::IndexOverflow);
        }
        if move_bits > usize::MAX - 8 - header_bits {
            return Err(EncodeError::SerializationFailure);
        }
        encoded_pgn = i8_to_bit_vec(header_bytes as i8);
        bitvec_append(&mut encoded_pgn, &mut headers);
    }
    bitvec_append(&mut encoded_pgn, &mut moves);
    Ok(encoded_pgn)
}

/// The first bit of a compressed game tells whether its tags are empty.
pub proof fn lemma_frame_first_bit(tags_empty: bool, block: Seq<bool>, body: Seq<bool>)
    requires
        frame_spec(tags_empty, block, body).is_ok(),
    ensures
        frame_spec(tags_empty, block, body).unwrap().len() >= 1,
        frame_spec(tags_empty, block, body).unwrap()[0] == tags_empty,
{
    if !tags_empty {
        let n = (block.len() + 7) / 8;
        lemma_length_prefix(n as int, block + body);
        assert(i8_bits(n as i8) + block + body =~= i8_bits(n as i8) + (block + body));
    }
}

/// What is framed is found again: the beginning of a compressed game gives
/// back the tags whose block reads back, and the moves begin where it says.
pub proof fn lemma_frame_round_trip(headers: HeadersView, block: Seq<u8>, body: Seq<bool>)
    requires
        block_reads_back(headers, block),
        frame_spec(headers.is_empty(), bytes_to_bits(block), body).is_ok(),
    ensures
        decompress_headers_spec(
            frame_spec(headers.is_empty(), bytes_to_bits(block), body).unwrap(),
        ) matches Ok((found, start)) && found == headers && 0 <= body_start(start) && frame_spec(
            headers.is_empty(),
            bytes_to_bits(block),
            body,
        ).unwrap().skip(body_start(start)) == body,
{
    let bits = frame_spec(headers.is_empty(), bytes_to_bits(block), body).unwrap();
    if headers.is_empty() {
        assert(bits.skip(1) =~= body);
        assert(headers.event =~= Seq::empty());
        assert(headers.site =~= Seq::empty());
        assert(headers.date =~= Seq::empty());
        assert(headers.round =~= Seq::empty());
        assert(headers.white =~= Seq::empty());
        assert(headers.black =~= Seq::empty());
        assert(headers.result =~= Seq::empty());
    } else {
        let n = block.len() as int;
        let rest = bytes_to_bits(block) + body;
        lemma_length_prefix(n, rest);
        assert(bits =~= i8_bits(n as i8) + rest);
        assert(header_length(bits) == n);
        assert(bits.subrange(8, 8 + 8 * n) =~= bytes_to_bits(block));
        lemma_bytes_bits_round_trip(block);
        assert(bits.skip(8 + 8 * n) =~= body);
    }
}

/// The bits of a game whose moves have the bits `body`: the tags are
/// compressed first, so their failure comes before that of the moves, and
/// the frame is put around both.
pub open spec fn framed(headers: HeadersView, body: Result<Seq<bool>, EncodeError>) -> Result<
    Seq<bool>,
    EncodeError,
> {
    match header_bits(headers) {
        Err(e) => Err(e),
        Ok(block) => match body {
            Err(e) => Err(e),
            Ok(moves) => frame_spec(headers.is_empty(), block, moves),
        },
    }
}

/// What holds of the bits of a framed game: the first bit tells whether the
/// tags are empty; without tags the bits are one more than those of the
/// moves, with tags at least sixteen more; and the beginning of the bits
/// gives back the tags, where their block reads back, and the place of the
/// moves.
pub proof fn lemma_framed(headers: HeadersView, body: Seq<bool>)
    requires
        framed(headers, Ok(body)).is_ok(),
        block_reads_back(headers, header_block(headers).unwrap()),
    ensures
        framed(headers, Ok(body)).unwrap().len() >= 1,
        framed(headers, Ok(body)).unwrap()[0] == headers.is_empty(),
        headers.is_empty() ==> framed(headers, Ok(body)).unwrap().len() == 1 + body.len(),
        !headers.is_empty() ==> framed(headers, Ok(body)).unwrap().len() >= 16 + body.len(),
        decompress_headers_spec(framed(headers, Ok(body)).unwrap()) matches Ok((found, start))
            && found == headers && 0 <= body_start(start) && framed(headers, Ok(body)).unwrap().skip(
            body_start(start),
        ) == body,
{
    let block = header_block(headers).unwrap();
    lemma_frame_first_bit(headers.is_empty(), bytes_to_bits(block), body);
    lemma_frame_round_trip(headers, block, body);
}

/// Puts the frame around the compressed tags of a game and the bits of its
/// moves, given what compressing the moves came to.
pub fn frame_game(pgn: &PgnData, headers: BitVec, moves: BitVec) -> (r: Result<BitVec, EncodeError>)
    requires
        header_bits(pgn@.headers) == Ok::<Seq<bool>, EncodeError>(bits_of(headers)),
    ensures
        (match r {
            Ok(b) => Ok::<Seq<bool>, EncodeError>(bits_of(b)),
            Err(e) => Err(e),
        }) == framed(pgn@.headers, Ok(bits_of(moves))),
{
    frame(pgn.headers.is_empty(), headers, moves)
}

} // verus!
