use shell_core::builtin::{Builtin, HostAction, State};
use shell_core::catalog::PathEntry;
use shell_core::history::{parse_history_args, HistoryCmd, HistoryError};
use shell_core::text::{dec_string, parse_usize};

fn args(v: &[&str]) -> Vec<String> {
    v.iter().map(|s| s.to_string()).collect()
}

fn state_with(history: &[&str]) -> State {
    let mut st = State::new();
    for h in history {
        st.push_history(h.to_string());
    }
    st
}

fn run_history(st: &mut State, a: &[&str]) -> shell_core::builtin::BuiltinEffect {
    let entries: Vec<PathEntry> = Vec::new();
    Builtin::History.run(st, &args(a), "/", &None, &entries)
}

#[test]
fn listing_is_one_indexed_right_aligned() {
    let mut st = state_with(&["first", "second"]);
    let eff = run_history(&mut st, &[]);
    assert_eq!(eff.out, "    1  first\n    2  second\n");
}

#[test]
fn numeric_argument_shows_last_entries() {
    let mut st = state_with(&["a", "b", "c"]);
    let eff = run_history(&mut st, &["2"]);
    assert_eq!(eff.out, "    2  b\n    3  c\n");
}

#[test]
fn count_larger_than_history_shows_all() {
    let mut st = state_with(&["a"]);
    let eff = run_history(&mut st, &["10"]);
    assert_eq!(eff.out, "    1  a\n");
}

#[test]
fn write_selects_without_index_prefix() {
    let mut st = state_with(&["a", "b"]);
    let eff = run_history(&mut st, &["-w", "h.txt"]);
    match eff.action {
        Some(HostAction::WriteFile { path, content, append }) => {
            assert_eq!(path, "h.txt");
            assert_eq!(content, "a\nb\n");
            assert!(!append);
        },
        _ => panic!("expected a write action"),
    }
}

#[test]
fn append_flushes_slice_and_advances_position() {
    let mut st = state_with(&["a", "b", "c"]);
    st.history_append_position = 1;
    let eff = run_history(&mut st, &["-a", "h.txt"]);
    match eff.action {
        Some(HostAction::WriteFile { path, content, append }) => {
            assert_eq!(path, "h.txt");
            assert_eq!(content, "b\nc\n");
            assert!(append);
        },
        _ => panic!("expected an append action"),
    }
    assert_eq!(st.history_append_position, st.history.len());
}

#[test]
fn second_append_writes_nothing_new() {
    let mut st = state_with(&["a"]);
    let _ = run_history(&mut st, &["-a", "h.txt"]);
    let eff = run_history(&mut st, &["-a", "h.txt"]);
    match eff.action {
        Some(HostAction::WriteFile { content, .. }) => assert_eq!(content, "\n"),
        _ => panic!("expected an append action"),
    }
}

#[test]
fn read_requests_file_and_absorb_appends() {
    let mut st = state_with(&["a", "b"]);
    let eff = run_history(&mut st, &["-r", "h.txt"]);
    match eff.action {
        Some(HostAction::ReadHistory(p)) => assert_eq!(p, "h.txt"),
        _ => panic!("expected a read action"),
    }
    st.absorb_history_lines(vec!["a".to_string(), "b".to_string()]);
    assert_eq!(st.history.len(), 4);
    assert_eq!(st.history[2], "a");
}

#[test]
fn write_then_read_doubles_saved_prefix() {
    let mut st = state_with(&["a", "b"]);
    let eff = run_history(&mut st, &["-w", "h.txt"]);
    let content = match eff.action {
        Some(HostAction::WriteFile { content, .. }) => content,
        _ => panic!("expected a write action"),
    };
    assert_eq!(content, "a\nb\n");
    let lines: Vec<String> = content.lines().map(|l| l.to_string()).collect();
    st.absorb_history_lines(lines);
    assert_eq!(st.history, args(&["a", "b", "a", "b"]));
}

#[test]
fn parse_rejects_missing_file() {
    assert!(matches!(parse_history_args(&args(&["-w"])), Err(HistoryError::MissingFile)));
}

#[test]
fn parse_rejects_bad_number() {
    match parse_history_args(&args(&["abc"])) {
        Err(HistoryError::BadNumber(s)) => assert_eq!(s, "abc"),
        _ => panic!("expected a bad-number error"),
    }
}

#[test]
fn parse_rejects_trailing_argument() {
    match parse_history_args(&args(&["5", "extra"])) {
        Err(HistoryError::TrailingArg(s)) => assert_eq!(s, "extra"),
        _ => panic!("expected a trailing-argument error"),
    }
}

#[test]
fn parse_rejects_write_and_append_together() {
    assert!(matches!(
        parse_history_args(&args(&["-w", "f", "-a", "g"])),
        Err(HistoryError::Exclusive)
    ));
}

#[test]
fn parse_rejects_read_combined_with_count() {
    assert!(matches!(
        parse_history_args(&args(&["-r", "f", "5"])),
        Err(HistoryError::ReadCombined)
    ));
}

#[test]
fn parse_accepts_write_with_count() {
    match parse_history_args(&args(&["-w", "f", "3"])) {
        Ok(HistoryCmd::Write(f, Some(3))) => assert_eq!(f, "f"),
        _ => panic!("expected a write command with a count"),
    }
}

#[test]
fn history_error_renders_message() {
    let mut st = state_with(&[]);
    let eff = run_history(&mut st, &["-w", "f", "-a", "g"]);
    assert_eq!(eff.err, "history: options -w and -a are mutually exclusive\n");
}

#[test]
fn decimal_rendering_and_parsing() {
    assert_eq!(dec_string(0), "0");
    assert_eq!(dec_string(12345), "12345");
    assert_eq!(parse_usize("123"), Some(123));
    assert_eq!(parse_usize(""), None);
    assert_eq!(parse_usize("12x"), None);
    assert_eq!(parse_usize("99999999999999999999999"), None);
}

#[test]
fn wide_index_is_not_truncated() {
    let mut st = State::new();
    for i in 0..12 {
        st.push_history(format!("cmd{}", i));
    }
    let eff = run_history(&mut st, &["1"]);
    assert_eq!(eff.out, "   12  cmd11\n");
}
