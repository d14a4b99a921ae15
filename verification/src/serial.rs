//! Bytes for tags and games: the structural serializer of the `bincode`
//! crate, whose format for texts is written out here, and the zlib streams
//! of the `flate2` crate.

use crate::pgn_data::{GameView, HeadersView, PgnData, PgnHeaders, SanPlusWrapper};
use flate2::read::ZlibDecoder;
use flate2::write::ZlibEncoder;
use flate2::Compression;
use std::io::{Read, Write};
use vstd::bytes::{
    lemma_auto_spec_u64_to_from_le_bytes, spec_u64_from_le_bytes, spec_u64_to_le_bytes,
};
use vstd::prelude::*;
use vstd::utf8::{decode_utf8, encode_utf8, valid_utf8};

verus! {

/// The error of reading or writing a stream.
#[verifier::external_type_specification]
#[verifier::external_body]
pub struct ExIoError(std::io::Error);

/// The error of the serializer.
#[verifier::external_type_specification]
#[verifier::external_body]
pub struct ExBincodeError(bincode::ErrorKind);

/// The zlib stream that holds `data`, deflated at the best level; `None`
/// where the deflater reports a failure.
pub uninterp spec fn zlib_deflated(data: Seq<u8>) -> Option<Seq<u8>>;

/// The bytes that a zlib stream holds, if `data` is such a stream.
pub uninterp spec fn zlib_inflated(data: Seq<u8>) -> Option<Seq<u8>>;

/// A text as `bincode` writes it with its default configuration: the
/// length in bytes of its UTF-8 form as eight bytes, least significant
/// first, and the UTF-8 form.
pub open spec fn bincode_text(text: Seq<char>) -> Seq<u8> {
    spec_u64_to_le_bytes(encode_utf8(text).len() as u64) + encode_utf8(text)
}

/// Texts written one after the other.
pub open spec fn bincode_texts(texts: Seq<Seq<char>>) -> Seq<u8>
    decreases texts.len(),
{
    if texts.len() == 0 {
        Seq::empty()
    } else {
        bincode_text(texts[0]) + bincode_texts(texts.skip(1))
    }
}

/// The seven tags in the order in which they are written.
pub open spec fn header_texts(headers: HeadersView) -> Seq<Seq<char>> {
    seq![
        headers.event,
        headers.site,
        headers.date,
        headers.round,
        headers.white,
        headers.black,
        headers.result,
    ]
}

/// The seven tags as `bincode` writes them: one text after the other.
pub open spec fn bincode_headers(headers: HeadersView) -> Seq<u8> {
    bincode_texts(header_texts(headers))
}

/// A game as `bincode` writes it: the seven tags, the number of the moves
/// as eight bytes, least significant first, and the moves as texts.
pub open spec fn bincode_game(game: GameView) -> Seq<u8> {
    bincode_headers(game.headers) + spec_u64_to_le_bytes(game.moves.len() as u64) + bincode_texts(
        game.moves,
    )
}

/// The text with which `data` begins as `bincode` reads it, and what
/// follows the text: there must be eight bytes of length and as many bytes
/// as they say, which must be valid UTF-8.
pub open spec fn read_text(data: Seq<u8>) -> Option<(Seq<char>, Seq<u8>)> {
    if data.len() < 8 {
        None
    } else {
        let n = spec_u64_from_le_bytes(data.take(8)) as int;
        if data.len() - 8 < n || !valid_utf8(data.subrange(8, 8 + n)) {
            None
        } else {
            Some((decode_utf8(data.subrange(8, 8 + n)), data.skip(8 + n)))
        }
    }
}

/// The `count` texts with which `data` begins, and what follows them.
pub open spec fn read_texts(data: Seq<u8>, count: nat) -> Option<(Seq<Seq<char>>, Seq<u8>)>
    decreases count,
{
    if count == 0 {
        Some((Seq::empty(), data))
    } else {
        match read_text(data) {
            None => None,
            Some((text, rest)) => match read_texts(rest, (count - 1) as nat) {
                None => None,
                Some((texts, after)) => Some((seq![text] + texts, after)),
            },
        }
    }
}

/// Seven texts as tags.
pub open spec fn headers_of_texts(texts: Seq<Seq<char>>) -> HeadersView
    recommends
        texts.len() == 7,
{
    HeadersView {
        event: texts[0],
        site: texts[1],
        date: texts[2],
        round: texts[3],
        white: texts[4],
        black: texts[5],
        result: texts[6],
    }
}

/// The seven tags with which `data` begins, if it begins with seven texts.
pub open spec fn bincode_headers_read(data: Seq<u8>) -> Option<HeadersView> {
    match read_texts(data, 7) {
        None => None,
        Some((texts, _)) => Some(headers_of_texts(texts)),
    }
}

/// The game with which `data` begins, if it begins with seven texts, a
/// number in eight bytes and that many texts.
pub open spec fn bincode_game_read(data: Seq<u8>) -> Option<GameView> {
    match read_texts(data, 7) {
        None => None,
        Some((texts, rest)) => if rest.len() < 8 {
            None
        } else {
            match read_texts(rest.skip(8), spec_u64_from_le_bytes(rest.take(8)) as nat) {
                None => None,
                Some((moves, _)) => Some(GameView { headers: headers_of_texts(texts), moves }),
            }
        },
    }
}

/// Every text is short enough for its length to be written in eight bytes.
pub open spec fn texts_fit(texts: Seq<Seq<char>>) -> bool {
    forall|i: int| 0 <= i < texts.len() ==> encode_utf8(#[trigger] texts[i]).len() <= u64::MAX
}

/// A text that was written is read back, and what follows it follows.
pub proof fn lemma_read_text(text: Seq<char>, rest: Seq<u8>)
    requires
        encode_utf8(text).len() <= u64::MAX,
    ensures
        read_text(bincode_text(text) + rest) == Some((text, rest)),
{
    broadcast use vstd::utf8::encode_utf8_valid_utf8, vstd::utf8::encode_utf8_decode_utf8;

    lemma_auto_spec_u64_to_from_le_bytes();
    let bytes = encode_utf8(text);
    let n = bytes.len() as u64;
    let data = bincode_text(text) + rest;
    assert(data.take(8) =~= spec_u64_to_le_bytes(n));
    assert(data.subrange(8, 8 + n) =~= bytes);
    assert(data.skip(8 + n) =~= rest);
}

/// Texts that were written are read back, and what follows them follows.
pub proof fn lemma_read_texts(texts: Seq<Seq<char>>, rest: Seq<u8>)
    requires
        texts_fit(texts),
    ensures
        read_texts(bincode_texts(texts) + rest, texts.len()) == Some((texts, rest)),
    decreases texts.len(),
{
    if texts.len() == 0 {
        assert(bincode_texts(texts) + rest =~= rest);
        assert(texts =~= Seq::empty());
    } else {
        let tail = texts.skip(1);
        assert forall|i: int| 0 <= i < tail.len() implies encode_utf8(#[trigger] tail[i]).len()
            <= u64::MAX by {
            assert(tail[i] == texts[i + 1]);
        }
        lemma_read_texts(tail, rest);
        lemma_read_text(texts[0], bincode_texts(tail) + rest);
        assert(bincode_texts(texts) + rest =~= bincode_text(texts[0]) + (bincode_texts(tail)
            + rest));
        assert(seq![texts[0]] + tail =~= texts);
    }
}

/// What is written for texts is at least as long as what is written for
/// each of them.
pub proof fn lemma_texts_length(texts: Seq<Seq<char>>, i: int)
    requires
        0 <= i < texts.len(),
    ensures
        encode_utf8(texts[i]).len() <= bincode_texts(texts).len(),
    decreases texts.len(),
{
    if i > 0 {
        lemma_texts_length(texts.skip(1), i - 1);
    }
}

/// Tags that were written are read back, whatever follows them, if the
/// bytes written are no more than a byte string can hold.
pub proof fn lemma_headers_read_back(headers: HeadersView, rest: Seq<u8>)
    requires
        bincode_headers(headers).len() <= usize::MAX,
    ensures
        texts_fit(header_texts(headers)),
        bincode_headers_read(bincode_headers(headers) + rest) == Some(headers),
{
    let texts = header_texts(headers);
    assert forall|i: int| 0 <= i < texts.len() implies encode_utf8(#[trigger] texts[i]).len()
        <= u64::MAX by {
        lemma_texts_length(texts, i);
    }
    lemma_read_texts(texts, rest);
}

/// A game that was written is read back, if the bytes written are no more
/// than a byte string can hold.
pub proof fn lemma_game_read_back(game: GameView)
    requires
        bincode_game(game).len() <= usize::MAX,
        game.moves.len() <= usize::MAX,
    ensures
        bincode_game_read(bincode_game(game)) == Some(game),
{
    lemma_auto_spec_u64_to_from_le_bytes();
    let count = spec_u64_to_le_bytes(game.moves.len() as u64);
    let moves = bincode_texts(game.moves);
    let rest = count + moves;
    assert(bincode_game(game) =~= bincode_headers(game.headers) + rest);
    lemma_headers_read_back(game.headers, rest);
    lemma_read_texts(header_texts(game.headers), rest);
    assert(headers_of_texts(header_texts(game.headers)) == game.headers);
    assert(spec_u64_from_le_bytes(count) == game.moves.len());
    assert forall|i: int| 0 <= i < game.moves.len() implies encode_utf8(
        #[trigger] game.moves[i],
    ).len() <= u64::MAX by {
        lemma_texts_length(game.moves, i);
    }
    lemma_read_texts(game.moves, Seq::empty());
    assert(rest.take(8) =~= count);
    assert(rest.skip(8) =~= moves + Seq::<u8>::empty());
}

/// `ZlibEncoder` at `Compression::best()`, written to the end: the zlib
/// stream for `data`, which inflates to `data` again. Whether the deflater
/// succeeds depends on the data alone.
#[verifier::external_body]
pub(crate) fn zlib_compress(data: &[u8]) -> (r: Result<Vec<u8>, std::io::Error>)
    ensures
        match r {
            Ok(out) => zlib_deflated(data@) == Some(out@) && zlib_inflated(out@) == Some(data@),
            Err(_) => zlib_deflated(data@).is_none(),
        },
{
    let mut encoder = ZlibEncoder::new(Vec::new(), Compression::best());
    encoder.write_all(data)?;
    encoder.finish()
}

/// `ZlibDecoder`, read to the end: the bytes that the stream holds, or the
/// error of a stream that is cut short or damaged.
#[verifier::external_body]
pub(crate) fn zlib_decompress(data: &[u8]) -> (r: Result<Vec<u8>, std::io::Error>)
    ensures
        r.is_ok() == zlib_inflated(data@).is_some(),
        r matches Ok(out) ==> zlib_inflated(data@) == Some(out@),
{
    let mut out = Vec::new();
    ZlibDecoder::new(data).read_to_end(&mut out)?;
    Ok(out)
}

/// `bincode::serialize` on the seven tags: one text after the other. It
/// does not fail: the serializer has no size limit, and it writes lengths
/// and texts to a vector, which takes every write.
#[verifier::external_body]
pub(crate) fn serialize_headers(h: &PgnHeaders) -> (r: Result<Vec<u8>, Box<bincode::ErrorKind>>)
    ensures
        r.is_ok(),
        r matches Ok(out) ==> out@ == bincode_headers(h@),
{
    bincode::serialize(&(&h.event, &h.site, &h.date, &h.round, &h.white, &h.black, &h.result))
}

/// `bincode::deserialize` for seven tags: seven texts are read from the
/// beginning of the bytes, and the bytes that follow them are left unread.
/// It fails where the bytes end before the seventh text does or a text is
/// no valid UTF-8.
#[verifier::external_body]
pub(crate) fn deserialize_headers(data: &[u8]) -> (r: Result<PgnHeaders, Box<bincode::ErrorKind>>)
    ensures
        r.is_ok() == bincode_headers_read(data@).is_some(),
        r matches Ok(h) ==> bincode_headers_read(data@) == Some(h@),
{
    let (event, site, date, round, white, black, result) = bincode::deserialize(data)?;
    Ok(PgnHeaders { event, site, date, round, white, black, result })
}

/// `bincode::serialize` on a game: the tags, the number of the moves and
/// the moves. It does not fail: the serializer has no size limit, the
/// number of the moves is known, and it writes to a vector, which takes
/// every write.
#[verifier::external_body]
pub(crate) fn serialize_game(game: &PgnData) -> (r: Result<Vec<u8>, Box<bincode::ErrorKind>>)
    ensures
        r.is_ok(),
        r matches Ok(out) ==> out@ == bincode_game(game@),
{
    let h = &game.headers;
    let tags = (&h.event, &h.site, &h.date, &h.round, &h.white, &h.black, &h.result);
    let moves: Vec<&String> = game.moves.iter().map(|m| &m.0).collect();
    bincode::serialize(&(tags, moves))
}

/// `bincode::deserialize` for a game: the tags, a number and that many
/// moves are read from the beginning of the bytes, and the bytes that
/// follow them are left unread. It fails where the bytes end too early or a
/// text is no valid UTF-8.
#[verifier::external_body]
pub(crate) fn deserialize_game(data: &[u8]) -> (r: Result<PgnData, Box<bincode::ErrorKind>>)
    ensures
        r.is_ok() == bincode_game_read(data@).is_some(),
        r matches Ok(game) ==> bincode_game_read(data@) == Some(game@),
{
    let ((event, site, date, round, white, black, result), moves): (_, Vec<String>) =
        bincode::deserialize(data)?;
    let headers = PgnHeaders { event, site, date, round, white, black, result };
    Ok(PgnData { headers, moves: moves.into_iter().map(SanPlusWrapper).collect() })
}

} // verus!
