use shell_core::builtin::Builtin;
use shell_core::catalog::{executables, search, CommandKind, FileEntry, PathEntry};
use shell_core::pipeline::{not_found_message, plan_pipeline, split_pipes, Stage};
use shell_core::redirect::Sink;

fn file_entry(path: &str, name: &str, executable: bool) -> FileEntry {
    FileEntry { path: path.to_string(), name: name.to_string(), is_file: true, executable }
}

fn path_file(path: &str, name: &str, executable: bool) -> PathEntry {
    PathEntry { entry: file_entry(path, name, executable), is_dir: false, children: Vec::new() }
}

fn path_dir(children: Vec<FileEntry>) -> PathEntry {
    PathEntry {
        entry: FileEntry {
            path: "".to_string(),
            name: "".to_string(),
            is_file: false,
            executable: false,
        },
        is_dir: true,
        children,
    }
}

fn bin_catalog() -> Vec<PathEntry> {
    vec![path_dir(vec![file_entry("/bin/wc", "wc", true), file_entry("/bin/cat", "cat", true)])]
}

#[test]
fn split_pipes_cuts_on_every_bar() {
    let segs = split_pipes("a|b|c");
    assert_eq!(segs, vec!["a".to_string(), "b".to_string(), "c".to_string()]);
    let segs = split_pipes("a||b|");
    assert_eq!(segs, vec!["a".to_string(), "".to_string(), "b".to_string(), "".to_string()]);
    let segs = split_pipes("");
    assert_eq!(segs, vec!["".to_string()]);
}

#[test]
fn single_command_plan_has_no_pipes() {
    let plan = plan_pipeline("echo hi", &Vec::new()).unwrap();
    assert_eq!(plan.pipe_count, 0);
    assert_eq!(plan.stages.len(), 1);
    let st = &plan.stages[0];
    assert_eq!(st.name, "echo");
    assert_eq!(st.args, vec!["hi".to_string()]);
    assert!(matches!(st.kind, CommandKind::Builtin(Builtin::Echo)));
    assert!(matches!(st.stdout, Sink::Default));
    assert!(st.stdin_pipe.is_none());
}

#[test]
fn two_stage_pipeline_creates_one_pipe() {
    let plan = plan_pipeline("echo one | wc -l", &bin_catalog()).unwrap();
    assert_eq!(plan.pipe_count, 1);
    assert_eq!(plan.stages.len(), 2);
    assert!(matches!(plan.stages[0].stdout, Sink::Pipe(0)));
    assert!(plan.stages[0].stdin_pipe.is_none());
    assert_eq!(plan.stages[1].stdin_pipe, Some(0));
    assert!(matches!(plan.stages[1].stdout, Sink::Default));
    assert_eq!(plan.stages[1].name, "wc");
    assert_eq!(plan.stages[1].args, vec!["-l".to_string()]);
    match &plan.stages[1].kind {
        CommandKind::Program(p) => assert_eq!(p, "/bin/wc"),
        _ => panic!("expected a program"),
    }
}

#[test]
fn three_stage_pipeline_wires_consecutively() {
    let plan = plan_pipeline("cat a | cat - | wc", &bin_catalog()).unwrap();
    assert_eq!(plan.pipe_count, 2);
    assert_eq!(plan.stages.len(), 3);
    assert!(matches!(plan.stages[0].stdout, Sink::Pipe(0)));
    assert!(matches!(plan.stages[1].stdout, Sink::Pipe(1)));
    assert_eq!(plan.stages[1].stdin_pipe, Some(0));
    assert_eq!(plan.stages[2].stdin_pipe, Some(1));
}

#[test]
fn pipe_overrides_file_redirection_on_non_last_stage() {
    let plan = plan_pipeline("echo x > f.txt | wc", &bin_catalog()).unwrap();
    assert!(matches!(plan.stages[0].stdout, Sink::Pipe(0)));
    assert_eq!(plan.stages[0].args, vec!["x".to_string()]);
    assert_eq!(plan.stages[1].stdin_pipe, Some(0));
}

#[test]
fn last_stage_keeps_its_file_redirection() {
    let plan = plan_pipeline("pwd > out.txt", &Vec::new()).unwrap();
    let st: &Stage = &plan.stages[0];
    assert!(matches!(st.kind, CommandKind::Builtin(Builtin::Pwd)));
    assert!(matches!(st.stdout, Sink::Truncate(ref p) if p == "out.txt"));
}

#[test]
fn stderr_redirection_survives_piping() {
    let plan = plan_pipeline("cat a 2> err.txt | wc", &bin_catalog()).unwrap();
    assert!(matches!(plan.stages[0].stderr, Sink::Truncate(ref p) if p == "err.txt"));
    assert!(matches!(plan.stages[0].stdout, Sink::Pipe(0)));
}

#[test]
fn empty_segments_are_skipped() {
    let plan = plan_pipeline("echo a || wc", &bin_catalog()).unwrap();
    assert_eq!(plan.stages.len(), 2);
    assert!(matches!(plan.stages[0].stdout, Sink::Pipe(0)));
    assert_eq!(plan.stages[1].stdin_pipe, Some(0));
}

#[test]
fn syntax_error_in_any_segment_fails_the_plan() {
    assert!(plan_pipeline("echo 'oops | wc", &bin_catalog()).is_err());
    assert!(plan_pipeline("echo a | wc >", &bin_catalog()).is_err());
}

#[test]
fn unknown_command_is_planned_as_not_found() {
    let plan = plan_pipeline("nosuch", &Vec::new()).unwrap();
    match &plan.stages[0].kind {
        CommandKind::NotFound(n) => assert_eq!(n, "nosuch"),
        _ => panic!("expected not-found"),
    }
    assert_eq!(not_found_message("nosuch"), "nosuch: command not found\n");
}

#[test]
fn search_follows_path_order() {
    let entries = vec![
        path_dir(vec![file_entry("/a/tool", "tool", false)]),
        path_file("/direct/tool", "tool", true),
        path_dir(vec![file_entry("/b/tool", "tool", true)]),
    ];
    assert_eq!(search(&entries, "tool"), Some("/direct/tool".to_string()));
}

#[test]
fn search_skips_non_executables() {
    let entries = vec![path_dir(vec![file_entry("/a/x", "x", false)])];
    assert_eq!(search(&entries, "x"), None);
}

#[test]
fn executables_enumerates_in_order_with_duplicates() {
    let entries = vec![
        path_file("/one/a", "a", true),
        path_dir(vec![
            file_entry("/two/b", "b", true),
            file_entry("/two/c", "c", false),
            file_entry("/two/a", "a", true),
        ]),
    ];
    assert_eq!(executables(&entries), vec!["a".to_string(), "b".to_string(), "a".to_string()]);
}
