use transformer::tokenizer::Tokenizer;

#[test]
fn new_tokenizer_is_empty() {
    let t = Tokenizer::new();
    assert_eq!(t.vocab_size(), 0);
}

#[test]
fn tokenize_numbers_words_in_order_of_first_sight() {
    let mut t = Tokenizer::new();
    assert_eq!(t.tokenize("the cat saw the other cat"), vec![0, 1, 2, 0, 3, 1]);
    assert_eq!(t.vocab_size(), 4);
    assert_eq!(t.decode(0), "the");
    assert_eq!(t.decode(1), "cat");
    assert_eq!(t.decode(2), "saw");
    assert_eq!(t.decode(3), "other");
}

#[test]
fn tokenize_lowers_the_case() {
    let mut t = Tokenizer::new();
    assert_eq!(t.tokenize("Between BETWEEN between"), vec![0, 0, 0]);
    assert_eq!(t.decode(0), "between");
    assert_eq!(t.tokenize("\u{c4}RGER \u{e4}rger"), vec![1, 1]);
    assert_eq!(t.decode(1), "\u{e4}rger");
}

#[test]
fn tokenize_splits_at_any_whitespace() {
    let mut t = Tokenizer::new();
    assert_eq!(t.tokenize("  a\tb\nc \r\n d\u{a0}e\u{2003}f\u{3000}g  "), vec![0, 1, 2, 3, 4, 5, 6]);
    assert_eq!(t.decode(3), "d");
    assert_eq!(t.decode(6), "g");
}

#[test]
fn tokenize_keeps_what_is_not_whitespace_together() {
    let mut t = Tokenizer::new();
    assert_eq!(t.tokenize("thumb, thumb. don't\u{200b}stop"), vec![0, 1, 2]);
    assert_eq!(t.decode(0), "thumb,");
    assert_eq!(t.decode(2), "don't\u{200b}stop");
}

#[test]
fn tokenize_of_nothing_is_empty() {
    let mut t = Tokenizer::new();
    assert_eq!(t.tokenize(""), Vec::<usize>::new());
    assert_eq!(t.tokenize(" \n\t "), Vec::<usize>::new());
    assert_eq!(t.vocab_size(), 0);
}

#[test]
fn vocabulary_grows_over_calls() {
    let mut t = Tokenizer::new();
    assert_eq!(t.tokenize("my finger"), vec![0, 1]);
    assert_eq!(t.tokenize("and my thumb"), vec![2, 0, 3]);
    assert_eq!(t.vocab_size(), 4);
    assert_eq!(t.decode(3), "thumb");
}

#[test]
fn intern_finds_or_adds() {
    let mut t = Tokenizer::new();
    assert_eq!(t.intern(String::from("pen")), 0);
    assert_eq!(t.intern(String::from("gun")), 1);
    assert_eq!(t.intern(String::from("pen")), 0);
    assert_eq!(t.intern(String::from("Pen")), 2);
    assert_eq!(t.vocab_size(), 3);
}
