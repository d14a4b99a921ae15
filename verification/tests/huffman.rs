use bit_vec::BitVec;
use cgn::codec::{compress_pgn, decompress_pgn_str, Codec};
use cgn::error::{DecodeError, EncodeError};
use cgn::huffman::{
    compress_moves, compress_pgn_data, decompress_moves, decompress_pgn_data, GameEncoder,
};
use cgn::pgn_data::SanPlusWrapper;
use cgn::pgn_data::{PgnData, PgnVisitor};
use pgn_reader::{BufferedReader, RawHeader, SanPlus, Visitor};

/// Example PGN string.
const PGN_STR_EXAMPLE: &str = r#"[Event "Titled Tuesday Blitz January 03 Early 2023"]
[Site ""]
[Date "2023.01.03"]
[Round "?"]
[White "Magnus Carlsen"]
[Black "Samvel Ter-Sahakyan"]
[Result "1-0"]

1. a4 Nf6 2. d4 d5 3. Nf3 Bf5 4. Nh4 Be4 5. f3 Bg6 6. Nc3 c5 7. e4 cxd4 8. Nxg6
hxg6 9. Qxd4 Nc6 10. Qf2 d4 11. Nd1 e5 12. Bc4 Rc8 13. Qe2 Bb4+ 14. Kf1 Na5 15.
Bd3 O-O 16. Nf2 Qb6 17. h4 Nh5 18. Rh3 Qf6 19. g4 Nf4 20. Bxf4 Qxf4 21. h5 g5
22. Rd1 a6 23. Kg2 Rc7 24. Rhh1 Rfc8 25. Nh3 Qf6 26. Ra1 Nc6 27. Rhc1 Bd6 28.
Qd2 Bb4 29. c3 Be7 30. Nf2 dxc3 31. bxc3 Nd8 32. Bb1 Ne6 33. Nh3 Bc5 34. Ba2 Rd8
35. Qe2 Nf4+ 36. Nxf4 gxf4 37. Kh3 g6 38. Rd1 Rcd7 39. Rxd7 Rxd7 40. Rd1 Bf2 41.
Bxf7+ Kf8 42. Qxf2 Rxd1 43. Bxg6 Qd6 44. g5 Qd3 45. Qc5+ Qd6 46. Qc8+ Kg7 47.
Qxb7+ Kf8 48. Qf7# 1-0"#;

/// Example PGN string with a common opening.
const PGN_STR_EXAMPLE_OPENING: &str = r#"[Event "Group A"]
[Site ""]
[Date "2024.01.21"]
[Round "?"]
[White "Adiga Sathvik"]
[Black "Van Huy Nguyen"]
[Result "1/2-1/2"]

1. e4 c6 2. d4 d5 3. Nc3 dxe4 4. Nxe4 Bf5 5. Ng3 Bg6 6. h4 h6 7. Nf3 e6 8. Ne5
Bh7 9. Bd3 Bxd3 10. Qxd3 Nd7 11. Qe2 Ngf6 12. c3 Be7 13. Bd2 O-O 14. O-O-O c5
15. dxc5 Nxe5 16. Qxe5 Qa5 17. Kb1 Qxc5 18. Qe2 Rfd8 19. Be3 Qc6 20. f3 Bc5 21.
Rhe1 Bxe3 22. Qxe3 Qa4 23. Rd4 Rxd4 24. Qxd4 Qxd4 25. cxd4 Rd8 26. Ne2 Kf8 27.
Kc2 Nd5 28. Kd2 Rd6 29. Rc1 Rb6 30. b3 Ra6 31. Rc2 Ke7 32. a4 Rb6 33. Nc1 Rd6
34. Nd3 Rd8 35. g3 h5 36. Nc5 b6 37. Nd3 f6 38. Rc4 Kd7 39. a5 Ra8 40. Rc1 Rc8
41. Rc4 Rc6 42. axb6 axb6 43. Ke2 Rc7 44. Kd2 Ra7 45. Ra4 Rxa4 46. bxa4 Kd6 47.
Nf2 Ne7 48. Ne4+ Kd5 49. Kd3 Nf5 50. Nc3+ Kc6 51. Ne2 g5 52. hxg5 fxg5 53. g4
hxg4 54. fxg4 Nh6 55. Nc3 Nxg4 56. Ne4 Kd5 57. Nc3+ Kc6 58. Ne4 1/2-1/2"#;

struct Collector {
    inner: PgnVisitor,
}

impl Visitor for Collector {
    type Result = PgnData;

    fn header(&mut self, key: &[u8], value: RawHeader<'_>) {
        if let (Ok(key), Ok(value)) = (std::str::from_utf8(key), value.decode_utf8()) {
            self.inner.header(key, &value);
        }
    }

    fn san(&mut self, san_plus: SanPlus) {
        self.inner.san(&san_plus.to_string());
    }

    fn end_game(&mut self) -> PgnData {
        self.inner.end_game()
    }
}

/// Reads the first game of a text.
fn from_str(pgn: &str) -> Option<PgnData> {
    let mut collector = Collector { inner: PgnVisitor::new() };
    BufferedReader::new_cursor(pgn).read_game(&mut collector).ok().flatten()
}

/// Compresses a PGN string into a vector of bytes
fn huffman_compress_pgn_str(pgn_str: &str) -> Vec<u8> {
    match from_str(pgn_str) {
        Some(pgn_data) => compress_pgn(Codec::Huffman, &pgn_data),
        None => Vec::new(),
    }
}

/// Decompresses a vector of bytes into a PGN string
fn huffman_decompress_pgn_str(compressed_data: &[u8]) -> String {
    decompress_pgn_str(Codec::Huffman, compressed_data)
}

fn game_of(moves: &[&str]) -> PgnData {
    let mut pgn = PgnData::new();
    for m in moves {
        pgn.moves.push(SanPlusWrapper(m.to_string()));
    }
    pgn
}

#[test]
/// Test if the compression is correct for PGN structs.
fn huffman_test_compress_pgn_data() {
    let pgn_str = PGN_STR_EXAMPLE;
    let pgn_data = from_str(pgn_str).unwrap();
    let compressed_data = compress_pgn_data(&pgn_data).unwrap();
    let decompressed_data = decompress_pgn_data(&compressed_data).unwrap();
    let decompressed_pgn_str = decompressed_data.to_string();
    println!("{}", decompressed_pgn_str);
    println!("{}", pgn_str);
    assert_eq!(pgn_str, decompressed_pgn_str);
}

#[test]
fn huffman_test_compress_pgn_str() {
    let pgn_str = PGN_STR_EXAMPLE;
    let compressed_data = huffman_compress_pgn_str(pgn_str);
    let decompressed_pgn_str = huffman_decompress_pgn_str(&compressed_data);
    assert_eq!(pgn_str, decompressed_pgn_str);
}

#[test]
/// Tests if the compression is correct for a PGN string with no headers.
fn huffman_test_compress_pgn_str_no_headers() {
    let mut pgn_data = from_str(PGN_STR_EXAMPLE).unwrap();
    pgn_data.clear_headers();
    let compressed_data = compress_pgn_data(&pgn_data).unwrap();
    let decompressed_pgn_str = decompress_pgn_data(&compressed_data).unwrap();
    assert_eq!(pgn_data.to_string(), decompressed_pgn_str.to_string());
}

#[test]
/// Tests that if the headers are empty, the first bit is set to 1
fn huffman_first_bit_zero_when_empty_headers() {
    let mut pgn = from_str(PGN_STR_EXAMPLE).unwrap();
    pgn.clear_headers();
    let compressed_pgn = compress_pgn_data(&pgn).unwrap();
    assert_eq!(compressed_pgn[0], true);
}

#[test]
/// Tests that if the headers are not empty, the first bit is set to 0
fn huffman_first_bit_one_when_full_headers() {
    let pgn = from_str(PGN_STR_EXAMPLE).unwrap();
    let compressed_pgn = compress_pgn_data(&pgn).unwrap();
    assert_eq!(compressed_pgn[0], false);
}

#[test]
/// Test that an invalid string cannot be compressed
fn huffman_invalid_pgn_str_compress() {
    let pgn_str = "foo bar";
    let compressed_data = huffman_compress_pgn_str(pgn_str);
    assert_eq!(compressed_data.len(), 0);
}

#[test]
/// Test that an invalid string cannot be decompressed
fn huffman_invalid_pgn_str_decompress() {
    let compressed_data = vec![0, 1, 2, 3];
    let decompressed_pgn_str = huffman_decompress_pgn_str(&compressed_data);
    assert_eq!(decompressed_pgn_str.len(), 0);
}

#[test]
/// Tests that if the headers are empty, the first bit is set to 1
fn encoder_first_bit_zero_when_empty_headers() {
    let mut pgn = from_str(PGN_STR_EXAMPLE).unwrap();
    pgn.clear_headers();
    let compressed_pgn = compress_pgn_data(&pgn).unwrap();
    assert_eq!(compressed_pgn[0], true);
}

#[test]
/// Tests that if the headers are not empty, the first bit is set to 0
fn encoder_first_bit_one_when_full_headers() {
    let pgn = from_str(PGN_STR_EXAMPLE).unwrap();
    let compressed_pgn = compress_pgn_data(&pgn).unwrap();
    assert_eq!(compressed_pgn[0], false);
}

#[test]
/// Test if the compression is correct for PGN structs.
fn mod_test_compress_pgn_data() {
    let pgn_str = PGN_STR_EXAMPLE;
    let pgn_data = from_str(pgn_str).unwrap();
    let compressed_data = compress_pgn_data(&pgn_data).unwrap();
    let decompressed_data = decompress_pgn_data(&compressed_data).unwrap();
    let decompressed_pgn_str = decompressed_data.to_string();
    assert_eq!(pgn_str, decompressed_pgn_str);
}

#[test]
/// Test if the compression is correct for PGN strings.
fn mod_test_compress_pgn_str() {
    let pgn_str = PGN_STR_EXAMPLE;
    let compressed_data = huffman_compress_pgn_str(pgn_str);
    let decompressed_pgn_str = huffman_decompress_pgn_str(&compressed_data);
    assert_eq!(pgn_str, decompressed_pgn_str);
}

#[test]
/// Tests if the compression is correct for a PGN string with no headers.
fn mod_test_compress_pgn_str_no_headers() {
    let mut pgn_data = from_str(PGN_STR_EXAMPLE).unwrap();
    pgn_data.clear_headers();
    let compressed_data = compress_pgn_data(&pgn_data).unwrap();
    let decompressed_pgn_str = decompress_pgn_data(&compressed_data).unwrap();
    assert_eq!(pgn_data.to_string(), decompressed_pgn_str.to_string());
}

#[test]
fn huffman_round_trip_of_an_opening_game() {
    let pgn_data = from_str(PGN_STR_EXAMPLE_OPENING).unwrap();
    let compressed_data = compress_pgn_data(&pgn_data).unwrap();
    let decompressed_data = decompress_pgn_data(&compressed_data).unwrap();
    assert_eq!(PGN_STR_EXAMPLE_OPENING, decompressed_data.to_string());
    assert_eq!(pgn_data.moves.len(), 115);
    assert_eq!(decompressed_data.moves.len(), 115);
}

#[test]
fn huffman_round_trip_with_special_moves() {
    let moves = [
        "e4", "d5", "e5", "f5", "exf6", "Nc6", "fxg7", "Be6", "gxh8=Q", "Qd7", "Nf3", "O-O-O",
        "Be2", "Nf6", "O-O", "Bg7",
    ];
    let pgn_data = game_of(&moves);
    let compressed_data = compress_pgn_data(&pgn_data).unwrap();
    assert_eq!(compressed_data[0], true);
    let decompressed_data = decompress_pgn_data(&compressed_data).unwrap();
    let decoded: Vec<String> = decompressed_data.moves.iter().map(|m| m.0.clone()).collect();
    assert_eq!(decoded, moves.iter().map(|m| m.to_string()).collect::<Vec<_>>());
    assert!(decompressed_data.headers.is_empty());
}

#[test]
fn huffman_moves_alone_round_trip() {
    let pgn_data = from_str(PGN_STR_EXAMPLE).unwrap();
    let bits = compress_moves(&pgn_data).unwrap();
    let moves = decompress_moves(&bits).unwrap();
    assert_eq!(moves.len(), 95);
    for (a, b) in moves.iter().zip(pgn_data.moves.iter()) {
        assert_eq!(a.0, b.0);
    }
}

#[test]
fn huffman_empty_game() {
    let pgn_data = PgnData::new();
    let compressed_data = compress_pgn_data(&pgn_data).unwrap();
    assert_eq!(compressed_data, BitVec::from_elem(1, true));
    let decompressed_data = decompress_pgn_data(&compressed_data).unwrap();
    assert!(decompressed_data.is_empty());
    assert_eq!(compress_pgn(Codec::Huffman, &pgn_data).len(), 0);
}

#[test]
fn huffman_illegal_move_is_illegal_input() {
    assert_eq!(compress_pgn_data(&game_of(&["e4", "e4"])), Err(EncodeError::IllegalInput));
    assert_eq!(compress_pgn_data(&game_of(&["e5"])), Err(EncodeError::IllegalInput));
    assert_eq!(compress_pgn_data(&game_of(&["e4", "zz"])), Err(EncodeError::IllegalInput));
    assert_eq!(compress_moves(&game_of(&["Nf3", "Nf6", "Ng5", "Ng4", "Nf3", "O-O"])), Err(EncodeError::IllegalInput));
}

#[test]
fn huffman_long_tags_overflow_the_prefix() {
    let mut pgn_data = game_of(&["e4"]);
    pgn_data.headers.event = "qwertyuiopasdfghjklzxcvbnm1234567890QWERTYUIOPASDFGHJKLZXCVBNM".to_string();
    pgn_data.headers.site = "zmxncbvlaksjdhfgqpwoeiruty0192837465ZMXNCBVLAKSJDHFGQPWOEIRUTY".to_string();
    pgn_data.headers.white = "The quick brown fox jumps over the lazy dog 9876543210".to_string();
    pgn_data.headers.black = "Sphinx of black quartz, judge my vow; 0123456789".to_string();
    assert_eq!(compress_pgn_data(&pgn_data), Err(EncodeError::IndexOverflow));
    assert_eq!(compress_pgn(Codec::Huffman, &pgn_data).len(), 0);
}

#[test]
fn huffman_decompress_errors() {
    assert_eq!(decompress_pgn_data(&BitVec::new()).err(), Some(DecodeError::Truncated));
    // a prefix that announces more bytes than follow
    assert_eq!(
        decompress_pgn_data(&BitVec::from_bytes(&[5, 1, 2])).err(),
        Some(DecodeError::Truncated)
    );
    assert_eq!(
        decompress_pgn_data(&BitVec::from_elem(7, false)).err(),
        Some(DecodeError::Truncated)
    );
    // a block that is no zlib stream
    assert_eq!(
        decompress_pgn_data(&BitVec::from_bytes(&[0, 1, 2, 3])).err(),
        Some(DecodeError::DeserializationFailure)
    );
    assert_eq!(
        decompress_pgn_data(&BitVec::from_bytes(&[2, 1, 2, 3])).err(),
        Some(DecodeError::DeserializationFailure)
    );
}

#[test]
fn huffman_rank_without_a_move_is_out_of_range() {
    // the moves of a game that ends in mate, followed by one more code word
    let pgn_data = from_str(PGN_STR_EXAMPLE).unwrap();
    let mut bits = compress_moves(&pgn_data).unwrap();
    let mut first = compress_moves(&game_of(&["a4"])).unwrap();
    bits.append(&mut first);
    assert_eq!(decompress_moves(&bits).err(), Some(DecodeError::IndexOutOfRange));
}

#[test]
fn huffman_unfinished_code_word_ends_the_moves() {
    let bits = compress_moves(&game_of(&["e4", "e5"])).unwrap();
    let whole = decompress_moves(&bits).unwrap();
    assert_eq!(whole.len(), 2);
    let mut cut = BitVec::new();
    for i in 0..bits.len() - 1 {
        cut.push(bits[i]);
    }
    let moves = decompress_moves(&cut).unwrap();
    assert_eq!(moves.len(), 1);
    assert_eq!(moves[0].0, "e4");
    assert_eq!(decompress_moves(&BitVec::new()).unwrap().len(), 0);
}

#[test]
fn huffman_moves_of_a_game_are_the_frame_body() {
    let mut pgn_data = from_str(PGN_STR_EXAMPLE).unwrap();
    let framed = compress_pgn_data(&pgn_data).unwrap();
    let body = compress_moves(&pgn_data).unwrap();
    pgn_data.clear_headers();
    let bare = compress_pgn_data(&pgn_data).unwrap();
    assert_eq!(bare.len(), body.len() + 1);
    for i in 0..body.len() {
        assert_eq!(bare[i + 1], body[i]);
        assert_eq!(framed[framed.len() - body.len() + i], body[i]);
    }
    // the prefix is the length of the block in bytes
    let block_bits = framed.len() - body.len() - 8;
    assert_eq!(block_bits % 8, 0);
    assert_eq!(framed.to_bytes()[0] as usize, block_bits / 8);
}

#[test]
fn game_encoder_writes_move_by_move() {
    let mut encoder = GameEncoder::new();
    assert_eq!(encoder.bit_moves.len(), 0);
    assert_eq!(encoder.pos.fen(), "rnbqkbnr/pppppppp/8/8/8/8/PPPPPPPP/RNBQKBNR w KQkq - 0 1");
    for san in ["e4", "c5", "Nf3"] {
        let m = encoder.pos.san_to_move(san).unwrap();
        assert_eq!(encoder.encode(&m), Ok(()));
    }
    assert_eq!(encoder.bit_moves, compress_moves(&game_of(&["e4", "c5", "Nf3"])).unwrap());
    // a move that is not legal changes nothing
    let before = encoder.bit_moves.clone();
    let fen = encoder.pos.fen();
    let illegal = cgn::chess::ChessMove::Castle { king: 60, rook: 63 };
    assert_eq!(encoder.encode(&illegal), Err(EncodeError::IllegalInput));
    assert_eq!(encoder.bit_moves, before);
    assert_eq!(encoder.pos.fen(), fen);
    assert_eq!(encoder.book.code_of(0), cgn::codebook::Codebook::new(&cgn::weights::get_lichess_hashmap()).code_of(0));
}
