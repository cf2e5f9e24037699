use shell_core::builtin::{cd_error_message, Builtin, BuiltinEffect, ControlFlow, HostAction, State};
use shell_core::catalog::{CommandKind, FileEntry, PathEntry};

fn args(v: &[&str]) -> Vec<String> {
    v.iter().map(|s| s.to_string()).collect()
}

fn no_entries() -> Vec<PathEntry> {
    Vec::new()
}

fn file_entry(path: &str, name: &str, executable: bool) -> FileEntry {
    FileEntry { path: path.to_string(), name: name.to_string(), is_file: true, executable }
}

fn dir_entry(children: Vec<FileEntry>) -> PathEntry {
    PathEntry {
        entry: FileEntry {
            path: "".to_string(),
            name: "".to_string(),
            is_file: false,
            executable: false,
        },
        is_dir: true,
        children,
    }
}

fn run(b: Builtin, state: &mut State, a: &[&str]) -> BuiltinEffect {
    b.run(state, &args(a), "/home/user", &Some("/home/user".to_string()), &no_entries())
}

#[test]
fn exit_flips_control_flow() {
    let mut st = State::new();
    let eff = run(Builtin::Exit, &mut st, &[]);
    assert!(matches!(st.control_flow, ControlFlow::Exit));
    assert_eq!(eff.out, "");
    assert_eq!(eff.err, "");
    assert!(eff.action.is_none());
}

#[test]
fn echo_joins_with_single_spaces() {
    let mut st = State::new();
    let eff = run(Builtin::Echo, &mut st, &["hello", "world"]);
    assert_eq!(eff.out, "hello world\n");
    assert_eq!(eff.err, "");
}

#[test]
fn echo_preserves_quoted_spaces_inside_words() {
    let mut st = State::new();
    let eff = run(Builtin::Echo, &mut st, &["a  b", "c"]);
    assert_eq!(eff.out, "a  b c\n");
}

#[test]
fn pwd_prints_working_directory() {
    let mut st = State::new();
    let eff = run(Builtin::Pwd, &mut st, &[]);
    assert_eq!(eff.out, "/home/user\n");
}

#[test]
fn type_reports_builtin_and_missing() {
    let mut st = State::new();
    let eff = run(Builtin::Type, &mut st, &["echo", "missing"]);
    assert_eq!(eff.out, "echo is a shell builtin\n");
    assert_eq!(eff.err, "missing: not found\n");
}

#[test]
fn type_reports_program_path() {
    let mut st = State::new();
    let entries = vec![dir_entry(vec![file_entry("/bin/wc", "wc", true)])];
    let eff = Builtin::Type.run(&mut st, &args(&["wc"]), "/", &None, &entries);
    assert_eq!(eff.out, "/bin/wc\n");
    assert_eq!(eff.err, "");
}

#[test]
fn cd_substitutes_home_for_tilde() {
    let mut st = State::new();
    let eff = run(Builtin::Cd, &mut st, &["~/src"]);
    match eff.action {
        Some(HostAction::ChangeDir(p)) => assert_eq!(p, "/home/user/src"),
        _ => panic!("expected a change-directory action"),
    }
}

#[test]
fn cd_without_argument_targets_home() {
    let mut st = State::new();
    let eff = run(Builtin::Cd, &mut st, &[]);
    match eff.action {
        Some(HostAction::ChangeDir(p)) => assert_eq!(p, "/home/user"),
        _ => panic!("expected a change-directory action"),
    }
}

#[test]
fn cd_without_home_reports_missing_variable() {
    let mut st = State::new();
    let eff = Builtin::Cd.run(&mut st, &args(&["/tmp"]), "/", &None, &no_entries());
    assert_eq!(eff.err, "cd: environment variable not found\n");
    assert!(eff.action.is_none());
}

#[test]
fn cd_failure_message_names_the_path() {
    assert_eq!(cd_error_message("/nonexistent"), "/nonexistent: No such file or directory\n");
}

#[test]
fn command_kind_trims_before_resolving() {
    let k = CommandKind::parse("  echo  ", &no_entries());
    assert!(matches!(k, CommandKind::Builtin(Builtin::Echo)));
}

#[test]
fn command_kind_not_found_keeps_trimmed_name() {
    let k = CommandKind::parse(" missing ", &no_entries());
    match k {
        CommandKind::NotFound(n) => assert_eq!(n, "missing"),
        _ => panic!("expected not-found"),
    }
}

#[test]
fn builtin_from_name_covers_all_six() {
    assert!(matches!(Builtin::from_name("exit"), Some(Builtin::Exit)));
    assert!(matches!(Builtin::from_name("type"), Some(Builtin::Type)));
    assert!(matches!(Builtin::from_name("echo"), Some(Builtin::Echo)));
    assert!(matches!(Builtin::from_name("pwd"), Some(Builtin::Pwd)));
    assert!(matches!(Builtin::from_name("cd"), Some(Builtin::Cd)));
    assert!(matches!(Builtin::from_name("history"), Some(Builtin::History)));
    assert!(Builtin::from_name("ls").is_none());
}
