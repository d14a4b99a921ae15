use bit_vec::BitVec;
use cgn::bincode_zlib::{compress_pgn_data, decompress_pgn_data};
use cgn::codec::{compress, compress_pgn, decompress, decompress_pgn_str, Codec};
use cgn::error::DecodeError;
use cgn::pgn_data::{PgnData, PgnVisitor};
use pgn_reader::{BufferedReader, RawHeader, SanPlus, Visitor};

/// Example PGN string.
const PGN_STR_EXAMPLE: &str = r#"[Event "Titled Tuesday Blitz January 03 Early 2023"]
[Site ""]
[Date "2023.01.03"]
[Round "?"]
[White "Magnus Carlsen"]
[Black "Samvel Ter-Sahakyan"]
[Result "1-0"]

1. a4 Nf6 2. d4 d5 3. Nf3 Bf5 4. Nh4 Be4 5. f3 Bg6 6. Nc3 c5 7. e4 cxd4 8. Nxg6
hxg6 9. Qxd4 Nc6 10. Qf2 d4 11. Nd1 e5 12. Bc4 Rc8 13. Qe2 Bb4+ 14. Kf1 Na5 15.
Bd3 O-O 16. Nf2 Qb6 17. h4 Nh5 18. Rh3 Qf6 19. g4 Nf4 20. Bxf4 Qxf4 21. h5 g5
22. Rd1 a6 23. Kg2 Rc7 24. Rhh1 Rfc8 25. Nh3 Qf6 26. Ra1 Nc6 27. Rhc1 Bd6 28.
Qd2 Bb4 29. c3 Be7 30. Nf2 dxc3 31. bxc3 Nd8 32. Bb1 Ne6 33. Nh3 Bc5 34. Ba2 Rd8
35. Qe2 Nf4+ 36. Nxf4 gxf4 37. Kh3 g6 38. Rd1 Rcd7 39. Rxd7 Rxd7 40. Rd1 Bf2 41.
Bxf7+ Kf8 42. Qxf2 Rxd1 43. Bxg6 Qd6 44. g5 Qd3 45. Qc5+ Qd6 46. Qc8+ Kg7 47.
Qxb7+ Kf8 48. Qf7# 1-0"#;

/// Example PGN string with a common opening.
const PGN_STR_EXAMPLE_OPENING: &str = r#"[Event "Group A"]
[Site ""]
[Date "2024.01.21"]
[Round "?"]
[White "Adiga Sathvik"]
[Black "Van Huy Nguyen"]
[Result "1/2-1/2"]

1. e4 c6 2. d4 d5 3. Nc3 dxe4 4. Nxe4 Bf5 5. Ng3 Bg6 6. h4 h6 7. Nf3 e6 8. Ne5
Bh7 9. Bd3 Bxd3 10. Qxd3 Nd7 11. Qe2 Ngf6 12. c3 Be7 13. Bd2 O-O 14. O-O-O c5
15. dxc5 Nxe5 16. Qxe5 Qa5 17. Kb1 Qxc5 18. Qe2 Rfd8 19. Be3 Qc6 20. f3 Bc5 21.
Rhe1 Bxe3 22. Qxe3 Qa4 23. Rd4 Rxd4 24. Qxd4 Qxd4 25. cxd4 Rd8 26. Ne2 Kf8 27.
Kc2 Nd5 28. Kd2 Rd6 29. Rc1 Rb6 30. b3 Ra6 31. Rc2 Ke7 32. a4 Rb6 33. Nc1 Rd6
34. Nd3 Rd8 35. g3 h5 36. Nc5 b6 37. Nd3 f6 38. Rc4 Kd7 39. a5 Ra8 40. Rc1 Rc8
41. Rc4 Rc6 42. axb6 axb6 43. Ke2 Rc7 44. Kd2 Ra7 45. Ra4 Rxa4 46. bxa4 Kd6 47.
Nf2 Ne7 48. Ne4+ Kd5 49. Kd3 Nf5 50. Nc3+ Kc6 51. Ne2 g5 52. hxg5 fxg5 53. g4
hxg4 54. fxg4 Nh6 55. Nc3 Nxg4 56. Ne4 Kd5 57. Nc3+ Kc6 58. Ne4 1/2-1/2"#;

struct Collector {
    inner: PgnVisitor,
}

impl Visitor for Collector {
    type Result = PgnData;

    fn header(&mut self, key: &[u8], value: RawHeader<'_>) {
        if let (Ok(key), Ok(value)) = (std::str::from_utf8(key), value.decode_utf8()) {
            self.inner.header(key, &value);
        }
    }

    fn san(&mut self, san_plus: SanPlus) {
        self.inner.san(&san_plus.to_string());
    }

    fn end_game(&mut self) -> PgnData {
        self.inner.end_game()
    }
}

/// Reads the first game of a text.
fn from_str(pgn: &str) -> Option<PgnData> {
    let mut collector = Collector { inner: PgnVisitor::new() };
    BufferedReader::new_cursor(pgn).read_game(&mut collector).ok().flatten()
}

/// Compresses a PGN string into a vector of bytes
fn compress_pgn_str(pgn_str: &str) -> Vec<u8> {
    match from_str(pgn_str) {
        Some(pgn_data) => compress_pgn(Codec::Bincode, &pgn_data),
        None => Vec::new(),
    }
}

/// Decompresses a vector of bytes into a PGN string
fn decompress_pgn_str_bincode(compressed_data: &[u8]) -> String {
    decompress_pgn_str(Codec::Bincode, compressed_data)
}

#[test]
/// Test if the bincode Zlib compression is correct for PGN structs.
fn bincode_zlib_pgn_data() {
    let pgn_str = PGN_STR_EXAMPLE;
    let pgn_data = from_str(pgn_str).unwrap();
    let compressed_data = compress_pgn_data(&pgn_data).unwrap();
    let decompressed_data = decompress_pgn_data(&compressed_data).unwrap();
    let decompressed_pgn_str = decompressed_data.to_string();
    assert_eq!(pgn_str, decompressed_pgn_str);
}

#[test]
/// Test if the bincode Zlib compression is correct for PGN strings.
fn bincode_zlib_pgn_str() {
    let pgn_str = PGN_STR_EXAMPLE;
    let compressed_data = compress_pgn_str(pgn_str);
    let decompressed_pgn_str = decompress_pgn_str_bincode(&compressed_data);
    assert_eq!(pgn_str, decompressed_pgn_str);
}

#[test]
/// Tests if the bincode Zlib compression is correct.
fn is_bincode_zlib_compression_correct() {
    let pgn_str = PGN_STR_EXAMPLE;
    let pgn_data = from_str(pgn_str).unwrap();
    let compressed_data = compress_pgn(Codec::Bincode, &pgn_data);
    let decompressed_pgn_str = decompress_pgn_str(Codec::Bincode, &compressed_data);
    assert_eq!(pgn_str, decompressed_pgn_str);
}

#[test]
fn bincode_zlib_sizes() {
    let pgn_data = from_str(PGN_STR_EXAMPLE).unwrap();
    let compressed_data = compress_pgn(Codec::Bincode, &pgn_data);
    println!("{}", compressed_data.len());
    assert_eq!(compressed_data.len(), 403);
    assert_eq!(pgn_data.to_string().len(), 744);
    // a zlib stream begins with the byte 0x78
    assert_eq!(compressed_data[0], 0x78);
}

#[test]
fn bincode_zlib_writes_lengths_and_texts() {
    let mut pgn_data = PgnData::new();
    pgn_data.headers.event = "ab".to_string();
    pgn_data.headers.result = "*".to_string();
    let compressed = compress_pgn_data(&pgn_data).unwrap().to_bytes();
    let mut raw = Vec::new();
    std::io::Read::read_to_end(&mut flate2::read::ZlibDecoder::new(&compressed[..]), &mut raw)
        .unwrap();
    let mut expected = vec![2, 0, 0, 0, 0, 0, 0, 0, b'a', b'b'];
    expected.extend([0u8; 40]);
    expected.extend([1, 0, 0, 0, 0, 0, 0, 0, b'*']);
    expected.extend([0u8; 8]);
    assert_eq!(raw, expected);
}

#[test]
fn bincode_zlib_round_trip_of_an_opening_game() {
    let pgn_data = from_str(PGN_STR_EXAMPLE_OPENING).unwrap();
    let compressed_data = compress_pgn_data(&pgn_data).unwrap();
    let decompressed_data = decompress_pgn_data(&compressed_data).unwrap();
    assert_eq!(PGN_STR_EXAMPLE_OPENING, decompressed_data.to_string());
}

#[test]
fn bincode_zlib_rejects_what_is_no_stream() {
    assert_eq!(
        decompress_pgn_data(&BitVec::from_bytes(&[0, 1, 2, 3])).err(),
        Some(DecodeError::DeserializationFailure)
    );
    assert_eq!(
        decompress_pgn_data(&BitVec::new()).err(),
        Some(DecodeError::DeserializationFailure)
    );
    assert_eq!(decompress_pgn_str(Codec::Bincode, &[0, 1, 2, 3]).len(), 0);
    // a stream that holds too little for a game
    let pgn_data = from_str(PGN_STR_EXAMPLE).unwrap();
    let bits = cgn::headers::compress_headers(&pgn_data).unwrap();
    assert_eq!(decompress_pgn_data(&bits).err(), Some(DecodeError::DeserializationFailure));
}

#[test]
fn all_codecs_round_trip_both_games() {
    for text in [PGN_STR_EXAMPLE, PGN_STR_EXAMPLE_OPENING] {
        for codec in [Codec::Bincode, Codec::Huffman, Codec::DynamicHuffman] {
            let mut pgn_data = from_str(text).unwrap();
            let bits = compress(codec, &pgn_data).unwrap();
            assert!(bits.len() >= 1);
            assert_eq!(decompress(codec, &bits).unwrap().to_string(), text);
            pgn_data.clear_headers();
            let bits = compress(codec, &pgn_data).unwrap();
            assert_eq!(decompress(codec, &bits).unwrap().to_string(), pgn_data.to_string());
        }
    }
}

#[test]
fn codec_of_level() {
    assert_eq!(Codec::from_level(0), Some(Codec::Bincode));
    assert_eq!(Codec::from_level(1), Some(Codec::Huffman));
    assert_eq!(Codec::from_level(2), Some(Codec::DynamicHuffman));
    assert_eq!(Codec::from_level(3), None);
    assert_eq!(Codec::from_level(255), None);
}

#[test]
fn rejection_in_all_codecs() {
    for codec in [Codec::Bincode, Codec::Huffman, Codec::DynamicHuffman] {
        let compressed = match from_str("foo bar") {
            Some(pgn_data) => compress_pgn(codec, &pgn_data),
            None => Vec::new(),
        };
        assert_eq!(compressed.len(), 0);
        assert_eq!(decompress_pgn_str(codec, &[0, 1, 2, 3]).len(), 0);
        assert_eq!(decompress_pgn_str(codec, &[]).len(), 0);
    }
}

#[test]
/// Test that the sizes of a single PGN can be measured.
fn metrics_can_generate_metrics() {
    let pgn_data = from_str(PGN_STR_EXAMPLE).unwrap();
    let compressed_data = compress_pgn(Codec::Bincode, &pgn_data);
    let decompressed_pgn_str = decompress_pgn_str(Codec::Bincode, &compressed_data);
    assert_eq!(compressed_data.len(), 403);
    assert_eq!(decompressed_pgn_str.len(), 744);
}

#[test]
/// Test that the sizes of a single PGN can be measured.
fn benchmark_can_generate_metrics() {
    let pgn_data = from_str(PGN_STR_EXAMPLE).unwrap();
    let compressed_data = compress_pgn_data(&pgn_data).unwrap().to_bytes();
    let decompressed_data = decompress_pgn_data(&BitVec::from_bytes(&compressed_data)).unwrap();
    assert_eq!(compressed_data.len(), 403);
    assert_eq!(decompressed_data.to_string().len(), 744);
}
