use bit_vec::BitVec;
use cgn::codebook::{convert_hashmap_to_weights, Codebook};
use cgn::error::EncodeError;
use cgn::weights::{get_lichess_hashmap, LICHESS_WEIGHTS};
use std::collections::HashMap;

#[test]
fn baseline_weights_are_dense() {
    let weights = get_lichess_hashmap();
    assert_eq!(weights.len(), 256);
    assert_eq!(weights[&0], 225_883_932);
    assert_eq!(weights[&1], 134_956_126);
    assert_eq!(weights[&12], 23_535_272);
    assert_eq!(weights[&20], 14_178_440);
    assert_eq!(weights[&255], 0);
    for k in 0..=255u8 {
        assert_eq!(weights[&k], LICHESS_WEIGHTS[k as usize]);
    }
    assert_eq!(LICHESS_WEIGHTS.iter().sum::<u64>(), 1_090_745_082);
}

#[test]
fn code_of_rank_zero_is_the_shortest() {
    let book = Codebook::new(&get_lichess_hashmap());
    let shortest = book.code_of(0).unwrap().len();
    assert!(shortest >= 1);
    for k in 0..=255u8 {
        assert!(book.code_of(k).unwrap().len() >= shortest);
    }
    assert!(book.code_of(0).unwrap().len() < book.code_of(100).unwrap().len());
}

#[test]
fn codebook_is_a_function_of_the_weights() {
    let a = Codebook::new(&get_lichess_hashmap());
    // the same weights, put into the table in another order
    let base = get_lichess_hashmap();
    let mut other = HashMap::new();
    for k in (0..=255u8).rev() {
        other.insert(k, base[&k]);
    }
    let b = Codebook::new(&other);
    for k in 0..=255u8 {
        assert_eq!(a.code_of(k), b.code_of(k));
    }
    let (book, _) = convert_hashmap_to_weights(&base);
    for k in 0..=255u8 {
        assert_eq!(book.get(&k), a.code_of(k).as_ref());
    }
}

#[test]
fn code_is_prefix_free() {
    let book = Codebook::new(&get_lichess_hashmap());
    let codes: Vec<BitVec> = (0..=255u8).map(|k| book.code_of(k).unwrap()).collect();
    for (i, a) in codes.iter().enumerate() {
        for (j, b) in codes.iter().enumerate() {
            if i != j && a.len() <= b.len() {
                assert!(!(0..a.len()).all(|k| a[k] == b[k]));
            }
        }
    }
}

#[test]
fn encode_and_decode_symbols() {
    let mut weights = HashMap::new();
    weights.insert(3u8, 10u64);
    weights.insert(5u8, 1u64);
    weights.insert(9u8, 1u64);
    let book = Codebook::new(&weights);
    assert!(book.code_of(4).is_none());
    assert_eq!(book.code_of(3).unwrap().len(), 1);
    assert_eq!(book.code_of(5).unwrap().len(), 2);
    let mut buffer = BitVec::new();
    buffer.push(true);
    assert_eq!(book.encode(&mut buffer, 4), Err(EncodeError::IndexOverflow));
    assert_eq!(buffer.len(), 1);
    assert_eq!(book.encode(&mut buffer, 5), Ok(()));
    assert_eq!(book.encode(&mut buffer, 3), Ok(()));
    assert_eq!(book.encode(&mut buffer, 9), Ok(()));
    assert_eq!(buffer.len(), 6);
    assert_eq!(book.decode_at(&buffer, 1), Some(5));
    assert_eq!(book.decode_at(&buffer, 3), Some(3));
    assert_eq!(book.decode_at(&buffer, 4), Some(9));
    assert_eq!(book.decode_at(&buffer, 6), None);
    // the bits end inside a code word
    let long = book.code_of(9).unwrap();
    let mut cut = BitVec::new();
    cut.push(long[0]);
    assert_eq!(book.decode_at(&cut, 0), None);
    // what was written is the code word
    let mut written = BitVec::new();
    book.encode(&mut written, 9).unwrap();
    assert_eq!(written, long);
}
