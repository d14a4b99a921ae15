use bit_vec::BitVec;
use cgn::error::{DecodeError, EncodeError};
use cgn::headers::{compress_headers, decompress_headers, frame};
use cgn::pgn_data::{PgnData, PgnVisitor};
use pgn_reader::{BufferedReader, RawHeader, SanPlus, Visitor};

/// Example PGN string.
const PGN_STR_EXAMPLE: &str = r#"[Event "Titled Tuesday Blitz January 03 Early 2023"]
[Site ""]
[Date "2023.01.03"]
[Round "?"]
[White "Magnus Carlsen"]
[Black "Samvel Ter-Sahakyan"]
[Result "1-0"]

1. a4 Nf6 2. d4 d5 3. Nf3 Bf5 4. Nh4 Be4 5. f3 Bg6 6. Nc3 c5 7. e4 cxd4 8. Nxg6
hxg6 9. Qxd4 Nc6 10. Qf2 d4 11. Nd1 e5 12. Bc4 Rc8 13. Qe2 Bb4+ 14. Kf1 Na5 15.
Bd3 O-O 16. Nf2 Qb6 17. h4 Nh5 18. Rh3 Qf6 19. g4 Nf4 20. Bxf4 Qxf4 21. h5 g5
22. Rd1 a6 23. Kg2 Rc7 24. Rhh1 Rfc8 25. Nh3 Qf6 26. Ra1 Nc6 27. Rhc1 Bd6 28.
Qd2 Bb4 29. c3 Be7 30. Nf2 dxc3 31. bxc3 Nd8 32. Bb1 Ne6 33. Nh3 Bc5 34. Ba2 Rd8
35. Qe2 Nf4+ 36. Nxf4 gxf4 37. Kh3 g6 38. Rd1 Rcd7 39. Rxd7 Rxd7 40. Rd1 Bf2 41.
Bxf7+ Kf8 42. Qxf2 Rxd1 43. Bxg6 Qd6 44. g5 Qd3 45. Qc5+ Qd6 46. Qc8+ Kg7 47.
Qxb7+ Kf8 48. Qf7# 1-0"#;

struct Collector {
    inner: PgnVisitor,
}

impl Visitor for Collector {
    type Result = PgnData;

    fn header(&mut self, key: &[u8], value: RawHeader<'_>) {
        if let (Ok(key), Ok(value)) = (std::str::from_utf8(key), value.decode_utf8()) {
            self.inner.header(key, &value);
        }
    }

    fn san(&mut self, san_plus: SanPlus) {
        self.inner.san(&san_plus.to_string());
    }

    fn end_game(&mut self) -> PgnData {
        self.inner.end_game()
    }
}

/// Reads the first game of a text.
fn from_str(pgn: &str) -> Option<PgnData> {
    let mut collector = Collector { inner: PgnVisitor::new() };
    BufferedReader::new_cursor(pgn).read_game(&mut collector).ok().flatten()
}

#[test]
fn empty_tags_have_no_block() {
    let mut pgn = from_str(PGN_STR_EXAMPLE).unwrap();
    pgn.clear_headers();
    assert_eq!(compress_headers(&pgn).unwrap().len(), 0);
}

#[test]
fn tags_come_back_from_their_block() {
    let pgn = from_str(PGN_STR_EXAMPLE).unwrap();
    let block = compress_headers(&pgn).unwrap();
    assert_eq!(block.len() % 8, 0);
    let bytes = block.len() / 8;
    assert!(bytes > 0 && bytes <= 127);
    let mut body = BitVec::new();
    body.push(true);
    body.push(false);
    body.push(true);
    let framed = frame(false, block.clone(), body.clone()).unwrap();
    assert_eq!(framed.len(), 8 + block.len() + 3);
    assert_eq!(framed.to_bytes()[0] as usize, bytes);
    let (headers, start) = decompress_headers(&framed).unwrap();
    assert_eq!(start, 8 + block.len());
    assert_eq!(headers.event, "Titled Tuesday Blitz January 03 Early 2023");
    assert_eq!(headers.site, "");
    assert_eq!(headers.date, "2023.01.03");
    assert_eq!(headers.round, "?");
    assert_eq!(headers.white, "Magnus Carlsen");
    assert_eq!(headers.black, "Samvel Ter-Sahakyan");
    assert_eq!(headers.result, "1-0");
    // the moves follow the block
    assert_eq!(framed[start], true);
    assert_eq!(framed[start + 1], false);
    assert_eq!(framed[start + 2], true);
}

#[test]
fn frame_without_tags_is_one_bit_and_the_moves() {
    let body = BitVec::from_bytes(&[0b0110_0000]);
    let framed = frame(true, BitVec::new(), body.clone()).unwrap();
    assert_eq!(framed.len(), 9);
    assert!(framed.eq_vec(&[true, false, true, true, false, false, false, false, false]));
    let (headers, start) = decompress_headers(&framed).unwrap();
    assert!(headers.is_empty());
    assert_eq!(start, 0);
    // a block that is handed in with empty tags is framed after the marker all the same
    let framed = frame(true, BitVec::new(), BitVec::new()).unwrap();
    assert_eq!(framed, BitVec::from_elem(1, true));
}

#[test]
fn frame_counts_the_bytes_of_the_block() {
    let framed = frame(false, BitVec::from_bytes(&[7, 7, 7]), BitVec::new()).unwrap();
    assert_eq!(framed.to_bytes(), vec![3, 7, 7, 7]);
    let framed = frame(false, BitVec::from_elem(9, true), BitVec::new()).unwrap();
    assert_eq!(framed.to_bytes(), vec![2, 0xff, 0x80]);
    let framed = frame(false, BitVec::new(), BitVec::from_elem(2, true)).unwrap();
    assert_eq!(framed.to_bytes(), vec![0, 0xc0]);
    assert!(frame(false, BitVec::from_elem(127 * 8, true), BitVec::new()).is_ok());
    assert_eq!(
        frame(false, BitVec::from_elem(127 * 8 + 1, true), BitVec::new()),
        Err(EncodeError::IndexOverflow)
    );
    assert_eq!(
        frame(false, BitVec::from_elem(128 * 8, false), BitVec::from_elem(3, true)),
        Err(EncodeError::IndexOverflow)
    );
}

#[test]
fn beginning_that_is_cut_short() {
    assert_eq!(decompress_headers(&BitVec::new()).err(), Some(DecodeError::Truncated));
    assert_eq!(
        decompress_headers(&BitVec::from_elem(5, false)).err(),
        Some(DecodeError::Truncated)
    );
    assert_eq!(
        decompress_headers(&BitVec::from_bytes(&[3, 1, 2])).err(),
        Some(DecodeError::Truncated)
    );
    assert_eq!(
        decompress_headers(&BitVec::from_bytes(&[3, 1, 2, 3])).err(),
        Some(DecodeError::DeserializationFailure)
    );
    // an empty block is no zlib stream
    assert_eq!(
        decompress_headers(&BitVec::from_bytes(&[0])).err(),
        Some(DecodeError::DeserializationFailure)
    );
    assert!(decompress_headers(&BitVec::from_elem(1, true)).is_ok());
}

#[test]
fn block_that_holds_too_little() {
    // a zlib stream that holds three strings where seven are needed
    let raw = bincode::serialize(&("a", "b", "c")).unwrap();
    let mut encoder =
        flate2::write::ZlibEncoder::new(Vec::new(), flate2::Compression::best());
    std::io::Write::write_all(&mut encoder, &raw).unwrap();
    let block = encoder.finish().unwrap();
    let framed = frame(false, BitVec::from_bytes(&block), BitVec::new()).unwrap();
    assert_eq!(
        decompress_headers(&framed).err(),
        Some(DecodeError::DeserializationFailure)
    );
    // seven strings and more are read as seven
    let raw = bincode::serialize(&("a", "b", "c", "d", "e", "f", "g", "h")).unwrap();
    let mut encoder =
        flate2::write::ZlibEncoder::new(Vec::new(), flate2::Compression::best());
    std::io::Write::write_all(&mut encoder, &raw).unwrap();
    let block = encoder.finish().unwrap();
    let framed = frame(false, BitVec::from_bytes(&block), BitVec::new()).unwrap();
    let (headers, _) = decompress_headers(&framed).unwrap();
    assert_eq!(headers.event, "a");
    assert_eq!(headers.result, "g");
}
