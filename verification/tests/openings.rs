use bit_vec::BitVec;
use cgn::openings::{extract_long_openings, extract_openings, usize_to_bitvec, usize_to_u12_vec};

const A_TSV: &str = "eco\tname\tpgn\nA00\tAmar Opening\t1. Nh3\nA00\tAmar Gambit\t1. Nh3 d5 2. g3 e5 3. f4 Bxh3 4. Bxh3 exf4\nA01\tNimzo-Larsen Attack\t1. b3\r\nA02\tBird Opening\t1. f4 d5\nbroken line\nA03\tBird Opening: Dutch Variation\t1. f4 d5 2. c4";

#[test]
fn test_extract_openings() {
    let openings = extract_openings(A_TSV);
    println!("{:?}", openings);
}

#[test]
fn extract_openings_keeps_long_third_columns() {
    let openings = extract_openings(A_TSV);
    assert_eq!(
        openings,
        vec![
            "1. Nh3 d5 2. g3 e5 3. f4 Bxh3 4. Bxh3 exf4".to_string(),
            "1. f4 d5 2. c4".to_string(),
        ]
    );
}

#[test]
fn extract_openings_agrees_with_std_lines() {
    let text = "a\tb\t1. e4 e5 2. Nf3\r\n\n\tx\t\t\na\tb\t e4   e5\tNf3 Nc6 \tz\nlast\tline\t1. d4 d5 2. c4 e6\r";
    let mut expected = Vec::new();
    for line in text.lines() {
        if let Some(moves) = line.split('\t').nth(2) {
            if moves.split_ascii_whitespace().count() >= 4 {
                expected.push(moves.to_string());
            }
        }
    }
    assert_eq!(extract_openings(text), expected);
    assert_eq!(expected.len(), 2);
}

#[test]
fn extract_long_openings_by_word_count() {
    let text = "e4 e5\ne4 e5 Nf3 Nc6\n\nd4\nd4 d5 c4\n";
    assert_eq!(
        extract_long_openings(text, 3),
        vec!["e4 e5 Nf3 Nc6".to_string(), "d4 d5 c4".to_string()]
    );
    assert_eq!(extract_long_openings(text, 0).len(), 5);
    assert_eq!(extract_long_openings("", 0).len(), 0);
}

#[test]
fn openings_test_usize_to_i12_vec() {
    let x = 1;
    let mut expected = BitVec::new();
    expected.push(false); // 0
    expected.push(false); // 0
    expected.push(false); // 0
    expected.push(false); // 0
    expected.push(false); // 0
    expected.push(false); // 0
    expected.push(false); // 0
    expected.push(false); // 0
    expected.push(false); // 0
    expected.push(false); // 0
    expected.push(false); // 0
    expected.push(true); // 1
    assert_eq!(usize_to_bitvec(x, 12).unwrap(), expected);
}

#[test]
fn openings_test_usize_to_i13_vec_2() {
    let x = 1;
    assert_eq!(usize_to_bitvec(x, 12).unwrap().len(), 12);
}

#[test]
fn mod_test_usize_to_i12_vec() {
    let x = 1;
    let mut expected = BitVec::new();
    for _ in 0..11 {
        expected.push(false);
    }
    expected.push(true);
    assert_eq!(usize_to_u12_vec(x).unwrap(), expected);
}

#[test]
fn mod_test_usize_to_i13_vec_2() {
    let x = 1;
    assert_eq!(usize_to_u12_vec(x).unwrap().len(), 12);
}

#[test]
fn usize_to_bitvec_refuses_what_does_not_fit() {
    assert!(usize_to_bitvec(4095, 12).is_ok());
    let err = usize_to_bitvec(4096, 12).unwrap_err();
    assert_eq!(err.number, 4096);
    assert_eq!(err.bits, 12);
    assert!(usize_to_u12_vec(4096).is_err());
    assert_eq!(usize_to_bitvec(5, 3).unwrap(), BitVec::from_fn(3, |i| i != 1));
    assert_eq!(usize_to_bitvec(0, 0).unwrap().len(), 0);
    assert!(usize_to_bitvec(1, 0).is_err());
    assert_eq!(usize_to_bitvec(usize::MAX, 70).unwrap().len(), 70);
}
