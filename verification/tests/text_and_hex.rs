use clarity_repl::terminal::complete_input;
use clarity_repl::diagnostic::decimal_string;
use clarity_repl::hex::{decode_hex, to_hex, DecodeHexError};
use clarity_repl::text::{join_lines, lines_of, parse_unsigned, remove_all, split_char, split_once_after, split_words};

#[test]
fn split_keeps_empty_pieces() {
    assert_eq!(split_char("a,b,,c", ','), vec!["a", "b", "", "c"]);
    assert_eq!(split_char("", ','), vec![""]);
    assert_eq!(split_char(",", ','), vec!["", ""]);
}

#[test]
fn split_then_join_gives_the_text_back() {
    let text = "first\n\nthird\n";
    assert_eq!(join_lines(&split_char(text, '\n')), text);
}

#[test]
fn words_skip_white_space() {
    assert_eq!(split_words("  b \t list \n"), vec!["b", "list"]);
    assert!(split_words("   ").is_empty());
}

#[test]
fn lines_drop_carriage_returns() {
    assert_eq!(lines_of("a\r\nb\nc"), vec!["a", "b", "c"]);
    assert_eq!(lines_of("a\n"), vec!["a"]);
    assert!(lines_of("").is_empty());
}

#[test]
fn unsigned_numbers_are_read_within_a_bound() {
    assert_eq!(parse_unsigned("42", 100), Some(42));
    assert_eq!(parse_unsigned("+7", 100), Some(7));
    assert_eq!(parse_unsigned("101", 100), None);
    assert_eq!(parse_unsigned("4a", 100), None);
    assert_eq!(parse_unsigned("", 100), None);
    assert_eq!(parse_unsigned("-1", 100), None);
}

#[test]
fn decimal_reads_back_as_the_number() {
    for n in [0u64, 7, 10, 12345, u64::MAX] {
        let text = decimal_string(n as u128);
        assert_eq!(text, n.to_string());
        assert_eq!(parse_unsigned(&text, u64::MAX), Some(n));
    }
}

#[test]
fn removing_a_pattern_everywhere() {
    assert_eq!(remove_all("::describe_function map", "::describe_function"), " map");
    assert_eq!(remove_all(" m a p ", " "), "map");
    assert_eq!(remove_all("aaa", "aa"), "a");
}

#[test]
fn what_follows_the_first_space() {
    assert_eq!(split_once_after("::encode (+ 1 2)", ' '), Some("(+ 1 2)".to_string()));
    assert_eq!(split_once_after("::encode", ' '), None);
}

#[test]
fn hex_reads_back_as_the_bytes() {
    let bytes = vec![0u8, 1, 0xab, 0xff];
    let text = to_hex(&bytes);
    assert_eq!(text, "0001abff");
    assert_eq!(decode_hex(&text), Ok(bytes));
}

#[test]
fn hex_decoding_errors() {
    assert_eq!(decode_hex("abc"), Err(DecodeHexError::OddLength));
    assert_eq!(decode_hex("4g"), Err(DecodeHexError::InvalidDigit));
    assert_eq!(decode_hex("0x 0A ff"), Ok(vec![0x0a, 0xff]));
    assert_eq!(decode_hex("+f"), Ok(vec![0x0f]));
    assert_eq!(decode_hex("é"), Err(DecodeHexError::InvalidDigit));
    assert_eq!(decode_hex("é1"), Err(DecodeHexError::OddLength));
    assert_eq!(DecodeHexError::OddLength.message(), "odd number of hex digits");
}

#[test]
fn input_is_complete_when_brackets_close() {
    assert_eq!(complete_input("(+ 1 2)"), Ok(None));
    assert_eq!(complete_input("(define-public (f)"), Ok(Some('(')));
    assert_eq!(complete_input("{ a: (list 1"), Ok(Some('(')));
    assert_eq!(complete_input("{ a: 1"), Ok(Some('{')));
    assert_eq!(complete_input("(a }"), Err((')', '}')));
    assert_eq!(complete_input("{a )"), Err(('}', ')')));
    assert_eq!(complete_input(")"), Ok(None));
}
