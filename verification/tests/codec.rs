use mini_transformer::codec::{load_words, read_word, save_words, write_word, ByteReader};
use mini_transformer::error::ModelError;

#[test]
fn words_are_stored_least_significant_byte_first() {
    let mut out = Vec::new();
    save_words(&vec![0x3c23_d70a, 1], &mut out);
    assert_eq!(out, vec![0x0a, 0xd7, 0x23, 0x3c, 1, 0, 0, 0]);
    let mut reader = ByteReader::new(&out);
    assert_eq!(load_words(&mut reader, 2), Ok(vec![0x3c23_d70a, 1]));
    assert_eq!(reader.pos, 8);
}

#[test]
fn a_word_is_stored_as_the_bytes_of_its_float() {
    for x in [0.0f32, 1.0, -1.5, 0.01, 3.25e9, f32::MIN_POSITIVE, f32::INFINITY] {
        let mut out = vec![0xee];
        write_word(x.to_bits(), &mut out);
        assert_eq!(&out[1..], &x.to_le_bytes()[..]);
        let mut reader = ByteReader { data: &out, pos: 1 };
        let w = read_word(&mut reader).unwrap();
        assert_eq!(f32::from_bits(w).to_bits(), x.to_bits());
    }
}

#[test]
fn reading_a_word_needs_four_bytes() {
    let bytes = [1u8, 2, 3];
    let mut reader = ByteReader::new(&bytes);
    assert_eq!(read_word(&mut reader), Err(ModelError::CheckpointCorrupt));
    assert_eq!(reader.pos, 0);
    assert_eq!(reader.bytes_left(), 3);
}

#[test]
fn reading_words_is_all_or_nothing() {
    let bytes = [1u8, 0, 0, 0, 2, 0, 0, 0, 9];
    let mut reader = ByteReader::new(&bytes);
    assert_eq!(load_words(&mut reader, 3), Err(ModelError::CheckpointCorrupt));
    assert_eq!(reader.pos, 0);
    assert_eq!(load_words(&mut reader, 2), Ok(vec![1, 2]));
    assert_eq!(reader.bytes_left(), 1);
    assert_eq!(load_words(&mut reader, 0), Ok(vec![]));
    assert_eq!(load_words(&mut reader, usize::MAX), Err(ModelError::CheckpointCorrupt));
}

#[test]
fn saving_no_words_writes_nothing() {
    let mut out = vec![7u8];
    save_words(&Vec::new(), &mut out);
    assert_eq!(out, vec![7u8]);
}

#[test]
fn a_reader_stands_within_its_bytes() {
    let bytes = [0u8; 4];
    assert!(ByteReader::new(&bytes).is_well_formed());
    assert!(ByteReader { data: &bytes, pos: 4 }.is_well_formed());
    assert!(!ByteReader { data: &bytes, pos: 5 }.is_well_formed());
}
