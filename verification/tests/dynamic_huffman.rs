use bit_vec::BitVec;
use cgn::codec::{compress_pgn, decompress_pgn_str, Codec};
use cgn::dynamic_huffman::{
    adjust_haspmap, compress_moves_custom, compress_pgn_data, compress_pgn_data_custom,
    decompress_moves_custom, decompress_pgn_data, decompress_pgn_data_custom, AdaptiveTables,
    GaussianKernel, GAUSSIAN_BUMPS,
};
use cgn::error::{DecodeError, EncodeError};
use cgn::pgn_data::SanPlusWrapper;
use cgn::weights::get_lichess_hashmap;
use cgn::pgn_data::{PgnData, PgnVisitor};
use pgn_reader::{BufferedReader, RawHeader, SanPlus, Visitor};

/// Example PGN string.
const PGN_STR_EXAMPLE: &str = r#"[Event "Titled Tuesday Blitz January 03 Early 2023"]
[Site ""]
[Date "2023.01.03"]
[Round "?"]
[White "Magnus Carlsen"]
[Black "Samvel Ter-Sahakyan"]
[Result "1-0"]

1. a4 Nf6 2. d4 d5 3. Nf3 Bf5 4. Nh4 Be4 5. f3 Bg6 6. Nc3 c5 7. e4 cxd4 8. Nxg6
hxg6 9. Qxd4 Nc6 10. Qf2 d4 11. Nd1 e5 12. Bc4 Rc8 13. Qe2 Bb4+ 14. Kf1 Na5 15.
Bd3 O-O 16. Nf2 Qb6 17. h4 Nh5 18. Rh3 Qf6 19. g4 Nf4 20. Bxf4 Qxf4 21. h5 g5
22. Rd1 a6 23. Kg2 Rc7 24. Rhh1 Rfc8 25. Nh3 Qf6 26. Ra1 Nc6 27. Rhc1 Bd6 28.
Qd2 Bb4 29. c3 Be7 30. Nf2 dxc3 31. bxc3 Nd8 32. Bb1 Ne6 33. Nh3 Bc5 34. Ba2 Rd8
35. Qe2 Nf4+ 36. Nxf4 gxf4 37. Kh3 g6 38. Rd1 Rcd7 39. Rxd7 Rxd7 40. Rd1 Bf2 41.
Bxf7+ Kf8 42. Qxf2 Rxd1 43. Bxg6 Qd6 44. g5 Qd3 45. Qc5+ Qd6 46. Qc8+ Kg7 47.
Qxb7+ Kf8 48. Qf7# 1-0"#;

/// Example PGN string with a common opening.
const PGN_STR_EXAMPLE_OPENING: &str = r#"[Event "Group A"]
[Site ""]
[Date "2024.01.21"]
[Round "?"]
[White "Adiga Sathvik"]
[Black "Van Huy Nguyen"]
[Result "1/2-1/2"]

1. e4 c6 2. d4 d5 3. Nc3 dxe4 4. Nxe4 Bf5 5. Ng3 Bg6 6. h4 h6 7. Nf3 e6 8. Ne5
Bh7 9. Bd3 Bxd3 10. Qxd3 Nd7 11. Qe2 Ngf6 12. c3 Be7 13. Bd2 O-O 14. O-O-O c5
15. dxc5 Nxe5 16. Qxe5 Qa5 17. Kb1 Qxc5 18. Qe2 Rfd8 19. Be3 Qc6 20. f3 Bc5 21.
Rhe1 Bxe3 22. Qxe3 Qa4 23. Rd4 Rxd4 24. Qxd4 Qxd4 25. cxd4 Rd8 26. Ne2 Kf8 27.
Kc2 Nd5 28. Kd2 Rd6 29. Rc1 Rb6 30. b3 Ra6 31. Rc2 Ke7 32. a4 Rb6 33. Nc1 Rd6
34. Nd3 Rd8 35. g3 h5 36. Nc5 b6 37. Nd3 f6 38. Rc4 Kd7 39. a5 Ra8 40. Rc1 Rc8
41. Rc4 Rc6 42. axb6 axb6 43. Ke2 Rc7 44. Kd2 Ra7 45. Ra4 Rxa4 46. bxa4 Kd6 47.
Nf2 Ne7 48. Ne4+ Kd5 49. Kd3 Nf5 50. Nc3+ Kc6 51. Ne2 g5 52. hxg5 fxg5 53. g4
hxg4 54. fxg4 Nh6 55. Nc3 Nxg4 56. Ne4 Kd5 57. Nc3+ Kc6 58. Ne4 1/2-1/2"#;

struct Collector {
    inner: PgnVisitor,
}

impl Visitor for Collector {
    type Result = PgnData;

    fn header(&mut self, key: &[u8], value: RawHeader<'_>) {
        if let (Ok(key), Ok(value)) = (std::str::from_utf8(key), value.decode_utf8()) {
            self.inner.header(key, &value);
        }
    }

    fn san(&mut self, san_plus: SanPlus) {
        self.inner.san(&san_plus.to_string());
    }

    fn end_game(&mut self) -> PgnData {
        self.inner.end_game()
    }
}

/// Reads the first game of a text.
fn from_str(pgn: &str) -> Option<PgnData> {
    let mut collector = Collector { inner: PgnVisitor::new() };
    BufferedReader::new_cursor(pgn).read_game(&mut collector).ok().flatten()
}

/// Compresses a PGN string into a vector of bytes
fn dynamic_huffman_compress_pgn_str(pgn_str: &str) -> Vec<u8> {
    match from_str(pgn_str) {
        Some(pgn_data) => compress_pgn(Codec::DynamicHuffman, &pgn_data),
        None => Vec::new(),
    }
}

/// Decompresses a vector of bytes into a PGN string
fn dynamic_huffman_decompress_pgn_str(compressed_data: &[u8]) -> String {
    decompress_pgn_str(Codec::DynamicHuffman, compressed_data)
}

/// The bumps of a bell curve of the given height and deviation.
fn kernel_of(height: f64, dev: f64) -> GaussianKernel {
    let bumps: Vec<i64> = (0..256)
        .map(|d| {
            let b = -((d as f64 - 0.0).powi(2) / (2.0 * dev.powi(2)));
            (height * b.exp()).floor() as i64
        })
        .collect();
    GaussianKernel::new(bumps).unwrap()
}

fn game_of(moves: &[&str]) -> PgnData {
    let mut pgn = PgnData::new();
    for m in moves {
        pgn.moves.push(SanPlusWrapper(m.to_string()));
    }
    pgn
}

#[test]
/// Test if the compression is correct for PGN structs.
fn dynamic_huffman_test_compress_pgn_data() {
    let pgn_str = PGN_STR_EXAMPLE;
    let pgn_data = from_str(pgn_str).unwrap();
    let compressed_data = compress_pgn_data(&pgn_data).unwrap();
    let decompressed_data = decompress_pgn_data(&compressed_data).unwrap();
    let decompressed_pgn_str = decompressed_data.to_string();
    assert_eq!(pgn_str, decompressed_pgn_str);
}

#[test]
/// Tests if the compression is correct for a PGN string with no headers.
fn test_compress_pgn_data_no_headers() {
    let mut pgn_data = from_str(PGN_STR_EXAMPLE).unwrap();
    pgn_data.clear_headers();
    let compressed_data = compress_pgn_data(&pgn_data).unwrap();
    let decompressed_pgn_str = decompress_pgn_data(&compressed_data).unwrap();
    assert_eq!(pgn_data.to_string(), decompressed_pgn_str.to_string());
}

#[test]
fn dynamic_huffman_test_compress_pgn_str() {
    let pgn_str = PGN_STR_EXAMPLE;
    let compressed_data = dynamic_huffman_compress_pgn_str(pgn_str);
    let decompressed_pgn_str = dynamic_huffman_decompress_pgn_str(&compressed_data);
    assert_eq!(pgn_str, decompressed_pgn_str);
}

#[test]
fn dynamic_huffman_test_compress_pgn_str_no_headers() {
    let mut pgn_data = from_str(PGN_STR_EXAMPLE).unwrap();
    pgn_data.clear_headers();
    let compressed_data = dynamic_huffman_compress_pgn_str(&pgn_data.to_string());
    let decompressed_pgn_str = dynamic_huffman_decompress_pgn_str(&compressed_data);
    assert_eq!(pgn_data.to_string(), decompressed_pgn_str);
}

#[test]
/// Tests if the compression is correct for PGN structs with custom height and dev.
fn test_compress_pgn_data_custom() {
    let pgn_str = PGN_STR_EXAMPLE;
    let pgn_data = from_str(pgn_str).unwrap();
    let kernel = kernel_of(1000000.0, 1000000.0);
    let compressed_data = compress_pgn_data_custom(&pgn_data, &kernel).unwrap();
    let decompressed_data = decompress_pgn_data_custom(&compressed_data, &kernel).unwrap();
    let decompressed_pgn_str = decompressed_data.to_string();
    assert_eq!(pgn_str, decompressed_pgn_str);
}

#[test]
/// Tests if the compression is correct for a PGN string with no headers and custom height and dev.
fn test_compress_pgn_data_no_headers_custom() {
    let mut pgn_data = from_str(PGN_STR_EXAMPLE).unwrap();
    pgn_data.clear_headers();
    let kernel = kernel_of(1000000.0, 1000000.0);
    let compressed_data = compress_pgn_data_custom(&pgn_data, &kernel).unwrap();
    let decompressed_pgn_str = decompress_pgn_data_custom(&compressed_data, &kernel).unwrap();
    assert_eq!(pgn_data.to_string(), decompressed_pgn_str.to_string());
}

#[test]
/// Test that an invalid string cannot be compressed
fn dynamic_huffman_invalid_pgn_str_compress() {
    let pgn_str = "foo bar";
    let compressed_data = dynamic_huffman_compress_pgn_str(pgn_str);
    assert_eq!(compressed_data.len(), 0);
}

#[test]
/// Test that an invalid string cannot be decompressed
fn dynamic_huffman_invalid_pgn_str_decompress() {
    let compressed_data = vec![0, 1, 2, 3];
    let decompressed_pgn_str = dynamic_huffman_decompress_pgn_str(&compressed_data);
    assert_eq!(decompressed_pgn_str.len(), 0);
}

#[test]
fn dynamic_huffman_first_bit_tells_of_the_tags() {
    let mut pgn = from_str(PGN_STR_EXAMPLE).unwrap();
    assert_eq!(compress_pgn_data(&pgn).unwrap()[0], false);
    pgn.clear_headers();
    assert_eq!(compress_pgn_data(&pgn).unwrap()[0], true);
}

#[test]
fn dynamic_huffman_round_trip_of_an_opening_game() {
    let pgn_data = from_str(PGN_STR_EXAMPLE_OPENING).unwrap();
    let compressed_data = compress_pgn_data(&pgn_data).unwrap();
    let decompressed_data = decompress_pgn_data(&compressed_data).unwrap();
    assert_eq!(PGN_STR_EXAMPLE_OPENING, decompressed_data.to_string());
}

#[test]
fn canonical_kernel_is_the_bell_curve() {
    let canonical = kernel_of(742325.3537353727, 2.5635425103971308);
    for d in 0..=255u8 {
        assert_eq!(canonical.bump(d), GAUSSIAN_BUMPS[d as usize]);
        assert_eq!(GaussianKernel::canonical().bump(d), GAUSSIAN_BUMPS[d as usize]);
    }
    assert_eq!(GAUSSIAN_BUMPS[0], 742325);
    assert_eq!(GAUSSIAN_BUMPS[1], 687941);
    assert_eq!(GAUSSIAN_BUMPS[13], 1);
    assert_eq!(GAUSSIAN_BUMPS[14], 0);
    assert!(GaussianKernel::new(vec![1; 255]).is_none());
    assert!(GaussianKernel::new(vec![1; 257]).is_none());
    assert!(GaussianKernel::new(Vec::new()).is_none());
}

#[test]
fn adjust_raises_the_weights_around_the_mean() {
    let mut weights = get_lichess_hashmap();
    let kernel = GaussianKernel::canonical();
    adjust_haspmap(&mut weights, &kernel, 3);
    let base = get_lichess_hashmap();
    assert_eq!(weights[&3], base[&3] + 742325);
    assert_eq!(weights[&2], base[&2] + 687941);
    assert_eq!(weights[&4], base[&4] + 687941);
    assert_eq!(weights[&0], base[&0] + 374292);
    assert_eq!(weights[&16], base[&16] + 1);
    assert_eq!(weights[&17], base[&17]);
    assert_eq!(weights[&255], 0);
    assert_eq!(weights.len(), 256);
    // the sum saturates
    let mut high = get_lichess_hashmap();
    high.insert(7, u64::MAX - 5);
    adjust_haspmap(&mut high, &kernel, 7);
    assert_eq!(high[&7], u64::MAX);
    // a bump below zero lowers a weight, but not below zero
    let mut low = get_lichess_hashmap();
    let mut bumps = vec![0i64; 256];
    bumps[0] = -225_883_000;
    bumps[1] = i64::MIN;
    bumps[2] = -1;
    let down = GaussianKernel::new(bumps).unwrap();
    adjust_haspmap(&mut low, &down, 0);
    assert_eq!(low[&0], 932);
    assert_eq!(low[&1], 0);
    assert_eq!(low[&2], base[&2] - 1);
    assert_eq!(low[&3], base[&3]);
    assert_eq!(kernel_of(-2.5, 1.0).bump(0), -3);
    assert_eq!(kernel_of(-2.5, 1.0).bump(3), -1);
    assert_eq!(kernel_of(-2.5, 1.0).bump(60), 0);
    assert_eq!(kernel_of(2.5, 1.0).bump(0), 2);
    // a table with gaps keeps its gaps
    let mut few = std::collections::HashMap::new();
    few.insert(200u8, 10u64);
    adjust_haspmap(&mut few, &kernel, 201);
    assert_eq!(few.len(), 1);
    assert_eq!(few[&200], 10 + 687941);
}

#[test]
fn dynamic_huffman_follows_the_game() {
    // the first move is written as in the static code, later ones are not
    let game = from_str(PGN_STR_EXAMPLE).unwrap();
    let kernel = GaussianKernel::canonical();
    let adaptive = compress_moves_custom(&game, &kernel).unwrap();
    let fixed = cgn::huffman::compress_moves(&game).unwrap();
    let zero = GaussianKernel::new(vec![0; 256]).unwrap();
    assert_eq!(compress_moves_custom(&game, &zero).unwrap(), fixed);
    assert_ne!(adaptive, fixed);
    let first = cgn::huffman::compress_moves(&game_of(&["a4"])).unwrap();
    for i in 0..first.len() {
        assert_eq!(adaptive[i], first[i]);
    }
    let moves = decompress_moves_custom(&adaptive, &kernel).unwrap();
    assert_eq!(moves.len(), 95);
    assert_eq!(moves[94].0, "Qf7#");
    // with another kernel the bits stand for other moves or for none
    let other = decompress_moves_custom(&adaptive, &zero);
    assert!(other.is_err() || other.unwrap().iter().zip(game.moves.iter()).any(|(a, b)| a.0 != b.0));
}

#[test]
fn dynamic_huffman_is_shorter_than_huffman_and_bincode() {
    let mut pgn_data = from_str(PGN_STR_EXAMPLE).unwrap();
    pgn_data.clear_headers();
    let dynamic = compress_pgn_data(&pgn_data).unwrap().len();
    let fixed = cgn::huffman::compress_pgn_data(&pgn_data).unwrap().len();
    let fallback = cgn::bincode_zlib::compress_pgn_data(&pgn_data).unwrap().len();
    println!("{} {} {}", dynamic, fixed, fallback);
    assert!(dynamic < fixed);
    assert!(fixed < fallback);
}

#[test]
fn dynamic_huffman_errors() {
    let kernel = GaussianKernel::canonical();
    assert_eq!(
        compress_pgn_data(&game_of(&["e4", "e5", "Ke3"])),
        Err(EncodeError::IllegalInput)
    );
    // bits that end inside a code word
    let one = compress_moves_custom(&game_of(&["e4"]), &kernel).unwrap();
    let mut cut = BitVec::new();
    for i in 0..one.len() - 1 {
        cut.push(one[i]);
    }
    assert!(cut.len() >= 1);
    assert_eq!(decompress_moves_custom(&cut, &kernel).err(), Some(DecodeError::Truncated));
    let two = compress_moves_custom(&game_of(&["e4", "e5"]), &kernel).unwrap();
    let mut cut = BitVec::new();
    for i in 0..two.len() - 1 {
        cut.push(two[i]);
    }
    assert_eq!(decompress_moves_custom(&cut, &kernel).err(), Some(DecodeError::Truncated));
    assert_eq!(decompress_pgn_data(&BitVec::new()).err(), Some(DecodeError::Truncated));
    assert_eq!(
        decompress_pgn_data(&BitVec::from_bytes(&[0, 1, 2, 3])).err(),
        Some(DecodeError::DeserializationFailure)
    );
    // after the mate there is no move left for a further code word
    let pgn_data = from_str(PGN_STR_EXAMPLE).unwrap();
    let mut bits = compress_moves_custom(&pgn_data, &kernel).unwrap();
    let n = decompress_moves_custom(&bits, &kernel).unwrap().len();
    assert_eq!(n, 95);
    bits.push(true);
    bits.push(false);
    assert_eq!(decompress_moves_custom(&bits, &kernel).unwrap().len(), 95);
}

#[test]
fn dynamic_huffman_rank_without_a_move_is_out_of_range() {
    let kernel = GaussianKernel::new(vec![0; 256]).unwrap();
    // find a rank that the start position has no move for: only 20 are legal
    let game = from_str(PGN_STR_EXAMPLE_OPENING).unwrap();
    let bits = compress_moves_custom(&game, &kernel).unwrap();
    let mut found = false;
    for start in 0..bits.len() {
        let mut tail = BitVec::new();
        for i in start..bits.len() {
            tail.push(bits[i]);
        }
        if decompress_moves_custom(&tail, &kernel).err() == Some(DecodeError::IndexOutOfRange) {
            found = true;
            break;
        }
    }
    assert!(found);
}

#[test]
fn tables_start_at_the_baseline() {
    let mut tables = AdaptiveTables::new();
    let mut bumps = vec![0i64; 256];
    bumps[0] = 1_000_000_000_000;
    let kernel = GaussianKernel::new(bumps).unwrap();
    let before = tables.codebook().code_of(30).unwrap();
    tables.update(&kernel, 30);
    // black's table is still the baseline
    assert_eq!(tables.codebook().code_of(30).unwrap(), before);
    tables.update(&kernel, 0);
    // white's table has been raised around 30
    assert!(tables.codebook().code_of(30).unwrap().len() < before.len());
}

#[test]
fn dynamic_huffman_game_without_moves_comes_back() {
    let kernel = GaussianKernel::canonical();
    // no bits stand for no moves
    assert_eq!(compress_moves_custom(&game_of(&[]), &kernel).unwrap().len(), 0);
    assert_eq!(decompress_moves_custom(&BitVec::new(), &kernel), Ok(Vec::new()));
    // without tags
    let bare = PgnData::new();
    let bits = compress_pgn_data(&bare).unwrap();
    assert_eq!(bits, BitVec::from_elem(1, true));
    assert_eq!(decompress_pgn_data(&bits), Ok(bare));
    // with tags
    let mut tagged = from_str(PGN_STR_EXAMPLE).unwrap();
    tagged.moves.clear();
    let bits = compress_pgn_data_custom(&tagged, &kernel).unwrap();
    assert_eq!(bits[0], false);
    let back = decompress_pgn_data_custom(&bits, &kernel).unwrap();
    assert!(back.moves.is_empty());
    assert_eq!(back.headers, tagged.headers);
    assert_eq!(back, tagged);
}

#[test]
fn compressed_games_have_a_bit_for_every_move() {
    for text in [PGN_STR_EXAMPLE, PGN_STR_EXAMPLE_OPENING] {
        let mut game = from_str(text).unwrap();
        let n = game.moves.len();
        let with_tags = compress_pgn_data(&game).unwrap();
        assert!(with_tags.len() >= 16 + n);
        let fixed = cgn::huffman::compress_pgn_data(&game).unwrap();
        assert!(fixed.len() >= 16 + n);
        // the prefix is the length of the block, which follows it
        let block = cgn::headers::compress_headers(&game).unwrap();
        assert!(block.len() >= 8 && block.len() % 8 == 0);
        assert_eq!(with_tags.to_bytes()[0] as usize, block.len() / 8);
        for i in 0..block.len() {
            assert_eq!(with_tags[8 + i], block[i]);
        }
        game.clear_headers();
        assert!(compress_pgn_data(&game).unwrap().len() >= 1 + n);
        assert!(cgn::huffman::compress_pgn_data(&game).unwrap().len() >= 1 + n);
    }
}

#[test]
fn every_ply_is_written_with_the_table_of_its_side() {
    let game = from_str(PGN_STR_EXAMPLE_OPENING).unwrap();
    let kernel = GaussianKernel::canonical();
    let ranks = cgn::ans::move_indices(&game).unwrap();
    let mut white = get_lichess_hashmap();
    let mut black = get_lichess_hashmap();
    let mut expected = BitVec::new();
    for (k, rank) in ranks.iter().enumerate() {
        let table = if k % 2 == 0 { &mut white } else { &mut black };
        let word = cgn::codebook::Codebook::new(table).code_of(*rank as u8).unwrap();
        for bit in word.iter() {
            expected.push(bit);
        }
        adjust_haspmap(table, &kernel, *rank as u8);
    }
    assert_eq!(compress_moves_custom(&game, &kernel).unwrap(), expected);
    // the decoder comes to the same tables
    let mut tables = AdaptiveTables::new();
    for rank in &ranks {
        tables.update(&kernel, *rank as u8);
    }
    let side = if ranks.len() % 2 == 0 { &white } else { &black };
    for k in 0..=255u8 {
        assert_eq!(
            tables.codebook().code_of(k),
            cgn::codebook::Codebook::new(side).code_of(k)
        );
    }
}
