use shell_core::redirect::{parse_redirections, Sink};
use shell_core::split::ParseError;

fn args(v: &[&str]) -> Vec<String> {
    v.iter().map(|s| s.to_string()).collect()
}

#[test]
fn plain_args_pass_through() {
    let (res, out, err) = parse_redirections(&args(&["ls", "-l"])).unwrap();
    assert_eq!(res, args(&["ls", "-l"]));
    assert!(matches!(out, Sink::Default));
    assert!(matches!(err, Sink::Default));
}

#[test]
fn stdout_truncate_operator_consumes_filename() {
    let (res, out, err) = parse_redirections(&args(&["a", ">", "f", "b"])).unwrap();
    assert_eq!(res, args(&["a", "b"]));
    assert!(matches!(out, Sink::Truncate(ref p) if p == "f"));
    assert!(matches!(err, Sink::Default));
}

#[test]
fn explicit_fd_one_is_stdout() {
    let (res, out, _) = parse_redirections(&args(&["1>", "f"])).unwrap();
    assert!(res.is_empty());
    assert!(matches!(out, Sink::Truncate(ref p) if p == "f"));
}

#[test]
fn fd_two_targets_stderr() {
    let (_, out, err) = parse_redirections(&args(&["2>", "e"])).unwrap();
    assert!(matches!(out, Sink::Default));
    assert!(matches!(err, Sink::Truncate(ref p) if p == "e"));
}

#[test]
fn append_operators_append() {
    let (_, out, err) = parse_redirections(&args(&[">>", "f", "2>>", "e"])).unwrap();
    assert!(matches!(out, Sink::Append(ref p) if p == "f"));
    assert!(matches!(err, Sink::Append(ref p) if p == "e"));
}

#[test]
fn later_operator_wins_for_same_stream() {
    let (_, out, _) = parse_redirections(&args(&[">", "f", ">>", "g"])).unwrap();
    assert!(matches!(out, Sink::Append(ref p) if p == "g"));
}

#[test]
fn trailing_operator_without_filename_fails() {
    assert!(matches!(parse_redirections(&args(&["a", ">"])), Err(ParseError)));
    assert!(matches!(parse_redirections(&args(&["2>>"])), Err(ParseError)));
}

#[test]
fn residual_keeps_order_around_pairs() {
    let (res, _, _) = parse_redirections(&args(&["x", "2>", "e", "y", ">", "f", "z"])).unwrap();
    assert_eq!(res, args(&["x", "y", "z"]));
}

#[test]
fn operator_like_filename_is_consumed_literally() {
    let (res, out, _) = parse_redirections(&args(&[">", ">>"])).unwrap();
    assert!(res.is_empty());
    assert!(matches!(out, Sink::Truncate(ref p) if p == ">>"));
}
