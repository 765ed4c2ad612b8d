use minitools::typing::{count_words, typed_correctly};

#[test]
fn words_are_runs_between_white_space() {
    assert_eq!(count_words("The quick brown fox jumps over the lazy dog."), 9);
    assert_eq!(count_words(""), 0);
    assert_eq!(count_words("   "), 0);
    assert_eq!(count_words("one"), 1);
    assert_eq!(count_words("  one  "), 1);
    assert_eq!(count_words("a\tb\nc  d"), 4);
    assert_eq!(count_words("a\u{a0}b"), 2);
}

#[test]
fn words_are_counted_as_the_standard_library_splits() {
    for text in ["", " ", "a", " a", "a ", "a b", "  a  b  ", "x\u{2003}y z", "é ü\n京", "a-b c.d"] {
        assert_eq!(count_words(text), text.split_whitespace().count(), "{:?}", text);
    }
}

#[test]
fn typed_text_is_trimmed_and_compared() {
    let expected = "The quick brown fox jumps over the lazy dog.";
    assert!(typed_correctly(expected, expected));
    assert!(typed_correctly("  The quick brown fox jumps over the lazy dog.\n", expected));
    assert!(!typed_correctly("The quick brown fox jumps over the lazy dog", expected));
    assert!(!typed_correctly("the quick brown fox jumps over the lazy dog.", expected));
    assert!(!typed_correctly("The quick  brown fox jumps over the lazy dog.", expected));
    assert!(!typed_correctly("", expected));
    assert!(typed_correctly(" \t", ""));
}

#[test]
fn the_expected_text_is_not_trimmed() {
    assert!(!typed_correctly("a", " a"));
    assert!(!typed_correctly(" a", " a"));
}
