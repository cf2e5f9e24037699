use shell_core::split::{split, ParseError};
use shell_core::text::join_words;

fn words(r: Result<Vec<String>, ParseError>) -> Vec<String> {
    r.expect("split should succeed")
}

#[test]
fn splits_plain_words() {
    let w = words(split("echo hello world"));
    assert_eq!(w, vec!["echo".to_string(), "hello".to_string(), "world".to_string()]);
}

#[test]
fn empty_input_gives_no_words() {
    let w = words(split(""));
    assert!(w.is_empty());
}

#[test]
fn whitespace_only_gives_no_words() {
    let w = words(split("   \t  "));
    assert!(w.is_empty());
}

#[test]
fn double_quotes_preserve_spaces() {
    let w = words(split("echo \"a  b\"  'c'"));
    assert_eq!(w, vec!["echo".to_string(), "a  b".to_string(), "c".to_string()]);
}

#[test]
fn empty_quotes_give_empty_word() {
    let w = words(split("''"));
    assert_eq!(w, vec!["".to_string()]);
    let w = words(split("\"\""));
    assert_eq!(w, vec!["".to_string()]);
}

#[test]
fn adjacent_runs_concatenate() {
    let w = words(split("a'b'\"c\"d"));
    assert_eq!(w, vec!["abcd".to_string()]);
}

#[test]
fn backslash_escapes_space() {
    let w = words(split("a\\ b"));
    assert_eq!(w, vec!["a b".to_string()]);
}

#[test]
fn backslash_newline_is_line_continuation() {
    let w = words(split("ab\\\ncd"));
    assert_eq!(w, vec!["abcd".to_string()]);
}

#[test]
fn line_continuation_keeps_the_accumulated_word() {
    let w = words(split("a\\\n b"));
    assert_eq!(w, vec!["ab".to_string()]);
}

#[test]
fn trailing_backslash_becomes_literal() {
    let w = words(split("ab\\"));
    assert_eq!(w, vec!["ab\\".to_string()]);
}

#[test]
fn single_quote_protects_double_quote() {
    let w = words(split("'he said \"hi\"'"));
    assert_eq!(w, vec!["he said \"hi\"".to_string()]);
}

#[test]
fn unterminated_single_quote_fails() {
    assert_eq!(split("echo 'unterminated"), Err(ParseError));
}

#[test]
fn unterminated_double_quote_fails() {
    assert_eq!(split("echo \"unterminated"), Err(ParseError));
}

#[test]
fn terminated_quotes_succeed() {
    assert!(split("echo 'done'").is_ok());
    assert!(split("echo \"done\"").is_ok());
}

#[test]
fn rejoin_and_resplit_is_identity_without_quoting() {
    let inputs = ["foo bar baz", "  a   b ", "one", "", "x y\tz"];
    for s in inputs {
        let w = words(split(s));
        let rejoined = join_words(&w, " ");
        let again = words(split(rejoined.as_str()));
        assert_eq!(w, again);
    }
}
