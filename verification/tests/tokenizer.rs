use mini_transformer::tokenizer::{is_whitespace, pad_sequence, Tokenizer, PAD_ID, UNK_ID};

#[test]
fn a_new_tokenizer_knows_pad_and_unk() {
    let t = Tokenizer::new();
    assert_eq!(t.vocab_size(), 2);
    assert_eq!(t.token_id("<pad>"), 0);
    assert_eq!(t.token_id("<unk>"), 1);
    assert_eq!(PAD_ID, 0);
    assert_eq!(UNK_ID, 1);
}

#[test]
fn the_default_tokenizer_is_a_new_one() {
    let t = Tokenizer::default();
    assert_eq!(t.vocab_size(), 2);
    assert_eq!(t.tokenize("<unk> <pad> x"), vec![1, 0, 1]);
}

#[test]
fn unknown_words_become_unk() {
    let t = Tokenizer::new();
    assert_eq!(t.tokenize("hello world"), vec![1, 1]);
    assert_eq!(t.tokenize("<pad> hello <unk>"), vec![0, 1, 1]);
}

#[test]
fn text_is_split_at_runs_of_white_space() {
    let mut t = Tokenizer::new();
    t.register_tokens(&["a", "b", "c"]);
    assert_eq!(t.tokenize(""), Vec::<usize>::new());
    assert_eq!(t.tokenize("   \t\n "), Vec::<usize>::new());
    assert_eq!(t.tokenize("a"), vec![2]);
    assert_eq!(t.tokenize("  a  b\tc\n"), vec![2, 3, 4]);
    assert_eq!(t.tokenize("a\u{3000}b\u{a0}c\u{2003}a"), vec![2, 3, 4, 2]);
    assert_eq!(t.tokenize("ab c"), vec![1, 4]);
}

#[test]
fn tokenize_agrees_with_split_whitespace() {
    let mut t = Tokenizer::new();
    t.register_tokens(&["the", "quick", "brown", "fox", "\u{e9}t\u{e9}"]);
    let texts = [
        "the quick brown fox",
        " the  quick\u{2028}brown\r\nfox jumps ",
        "\u{e9}t\u{e9} the \u{1680}fox\u{205f}\u{e9}t\u{e9}",
        "the\u{200b}quick",
        "the\u{85}quick\u{1c}brown",
        "\u{feff}the",
    ];
    for text in texts {
        let want: Vec<usize> = text.split_whitespace().map(|w| t.token_id(w)).collect();
        assert_eq!(t.tokenize(text), want, "{:?}", text);
    }
}

#[test]
fn white_space_is_what_the_standard_library_takes_for_it() {
    for u in 0..=0x10_ffffu32 {
        if let Some(c) = char::from_u32(u) {
            assert_eq!(is_whitespace(c), c.is_whitespace(), "U+{:04X}", u);
        }
    }
}

#[test]
fn new_words_get_the_next_free_id() {
    let mut t = Tokenizer::new();
    t.register_tokens(&["hello", "world"]);
    assert_eq!(t.vocab_size(), 4);
    assert_eq!(t.token_id("hello"), 2);
    assert_eq!(t.token_id("world"), 3);
    assert_eq!(t.tokenize("hello there world"), vec![2, 1, 3]);
}

#[test]
fn known_words_keep_their_id() {
    let mut t = Tokenizer::new();
    t.register_tokens(&["hello", "<unk>", "hello", "world", "<pad>"]);
    assert_eq!(t.vocab_size(), 4);
    assert_eq!(t.token_id("hello"), 2);
    assert_eq!(t.token_id("world"), 3);
    assert_eq!(t.token_id("<unk>"), 1);
    assert_eq!(t.token_id("<pad>"), 0);
    t.register_tokens(&[]);
    assert_eq!(t.vocab_size(), 4);
}

#[test]
fn short_sequences_are_padded_and_long_ones_kept() {
    let t = Tokenizer::new();
    let mut sequences = vec![vec![5, 6], vec![], vec![1, 2, 3, 4], vec![7, 8, 9]];
    t.pad_sequences(&mut sequences, 3);
    assert_eq!(sequences, vec![vec![5, 6, 0], vec![0, 0, 0], vec![1, 2, 3, 4], vec![7, 8, 9]]);
    t.pad_sequences(&mut sequences, 0);
    assert_eq!(sequences, vec![vec![5, 6, 0], vec![0, 0, 0], vec![1, 2, 3, 4], vec![7, 8, 9]]);
    let mut none: Vec<Vec<usize>> = Vec::new();
    t.pad_sequences(&mut none, 4);
    assert!(none.is_empty());
}

#[test]
fn one_sequence_is_padded_to_the_length() {
    let mut ids = vec![4];
    pad_sequence(&mut ids, 4);
    assert_eq!(ids, vec![4, 0, 0, 0]);
    pad_sequence(&mut ids, 2);
    assert_eq!(ids, vec![4, 0, 0, 0]);
}

#[test]
fn a_long_text_is_tokenized_word_by_word() {
    let mut t = Tokenizer::new();
    t.register_tokens(&["x", "y"]);
    let text = "x y ".repeat(500);
    let ids = t.tokenize(&text);
    assert_eq!(ids.len(), 1000);
    assert!(ids.iter().enumerate().all(|(k, id)| *id == 2 + k % 2));
}
