use arith::lexer::{chars_of, mark_whitespace, scan, tokenize, SyntaxError, Token};
use arith::lexer::Token::{Else, False, If, IsZero, Pred, Succ, Then, True, Zero};

#[test]
fn tokenize_zero_test() {
    assert_eq!(
        tokenize("zero").ok().unwrap(),
        vec![Zero]
    );
}

#[test]
fn tokenize_one_test() {
    assert_eq!(
        tokenize("succ zero").ok().unwrap(),
        vec![Succ, Zero]
    );
}

#[test]
fn tokenize_five_test() {
    assert_eq!(
        tokenize("succ succ succ succ succ zero").ok().unwrap(),
        vec![Succ, Succ, Succ, Succ, Succ, Zero]
    );
}

#[test]
fn tokenize_is_zero_zero_test() {
    assert_eq!(
        tokenize("is_zero zero").ok().unwrap(),
        vec![IsZero, Zero]
    );
}

#[test]
fn tokenize_is_zero_one_test() {
    assert_eq!(
        tokenize("is_zero succ zero").ok().unwrap(),
        vec![IsZero, Succ, Zero]
    );
}

fn failure(source: &str) -> (String, usize) {
    let SyntaxError { message, position } = tokenize(source).err().unwrap();
    (message, position)
}

#[test]
fn tokenize_empty_test() {
    assert_eq!(tokenize("").ok().unwrap(), Vec::<Token>::new());
    assert_eq!(tokenize("  \t\n ").ok().unwrap(), Vec::<Token>::new());
}

#[test]
fn tokenize_every_keyword_test() {
    assert_eq!(
        tokenize("succ pred zero true false is_zero if then else").ok().unwrap(),
        vec![Succ, Pred, Zero, True, False, IsZero, If, Then, Else]
    );
}

#[test]
fn tokenize_any_whitespace_separates_test() {
    assert_eq!(
        tokenize("\tif\ntrue\r\nthen  zero\u{a0}else\u{2003}succ zero\n").ok().unwrap(),
        vec![If, True, Then, Zero, Else, Succ, Zero]
    );
}

#[test]
fn tokenize_digit_test() {
    assert_eq!(failure("7"), ("Invalid character : 7".to_string(), 1));
    assert_eq!(failure("succ 1"), ("Invalid character : 1".to_string(), 6));
    assert_eq!(failure("  zero  +"), ("Invalid character : +".to_string(), 9));
}

#[test]
fn tokenize_symbol_inside_word_test() {
    assert_eq!(failure("zero;"), ("Invalid character : ;".to_string(), 5));
    assert_eq!(failure("foo1 zero"), ("Invalid character : 1".to_string(), 4));
    assert_eq!(failure("succ(zero)"), ("Invalid character : (".to_string(), 5));
}

#[test]
fn tokenize_counts_characters_not_bytes_test() {
    assert_eq!(failure("zero \u{e9}"), ("Invalid character : \u{e9}".to_string(), 6));
    assert_eq!(failure("\u{2003}\u{2003}\u{3bb}"), ("Invalid character : \u{3bb}".to_string(), 3));
}

#[test]
fn tokenize_unknown_word_test() {
    assert_eq!(failure("foo"), ("Invalid keyword : foo".to_string(), 1));
    assert_eq!(failure("succ Zero"), ("Invalid keyword : Zero".to_string(), 6));
    assert_eq!(failure("zero is_ zero"), ("Invalid keyword : is_".to_string(), 6));
    assert_eq!(failure("iszero"), ("Invalid keyword : iszero".to_string(), 1));
}

#[test]
fn tokenize_unknown_word_before_bad_character_test() {
    assert_eq!(failure("foo 1"), ("Invalid keyword : foo".to_string(), 1));
}

#[test]
fn tokenize_leading_underscore_test() {
    assert_eq!(failure("_zero"), ("Invalid character : _".to_string(), 1));
    assert_eq!(failure("zero _"), ("Invalid character : _".to_string(), 6));
}

#[test]
fn chars_of_test() {
    assert_eq!(chars_of("a\u{e9} z"), vec!['a', '\u{e9}', ' ', 'z']);
    assert_eq!(chars_of(""), Vec::<char>::new());
}

#[test]
fn mark_whitespace_test() {
    assert_eq!(
        mark_whitespace(&vec!['a', ' ', '\t', '_', '\n', '1', '\u{a0}']),
        vec![false, true, true, false, true, false, true]
    );
}

#[test]
fn scan_with_given_marks_test() {
    let chars = chars_of("zero,succ");
    let mut blank = vec![false; chars.len()];
    blank[4] = true;
    assert_eq!(scan(&chars, &blank).ok().unwrap(), vec![Zero, Succ]);
    let unmarked = vec![false; chars.len()];
    let e = scan(&chars, &unmarked).err().unwrap();
    assert_eq!(e.message, "Invalid character : ,");
    assert_eq!(e.position, 5);
}
