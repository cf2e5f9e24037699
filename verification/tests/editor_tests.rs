use shell_core::editor::Editor;
use shell_core::key::Key;

fn names(v: &[&str]) -> Vec<String> {
    v.iter().map(|s| s.to_string()).collect()
}

fn type_word(ed: &mut Editor, s: &str, catalog: &Vec<String>) {
    for c in s.chars() {
        let (_, done) = ed.step(Key::Char(c), catalog);
        assert!(done.is_none());
    }
}

#[test]
fn characters_insert_at_cursor_with_insert_mode_echo() {
    let mut ed = Editor::new();
    let catalog = names(&[]);
    let (echo, done) = ed.step(Key::Char('a'), &catalog);
    assert_eq!(echo, "\u{1b}[4ha\u{1b}[4l");
    assert!(done.is_none());
    assert_eq!(ed.buffer, vec!['a']);
    assert_eq!(ed.cursor, 1);
}

#[test]
fn newline_finishes_with_the_buffer() {
    let mut ed = Editor::new();
    let catalog = names(&[]);
    type_word(&mut ed, "hi", &catalog);
    let (echo, done) = ed.step(Key::Newline, &catalog);
    assert_eq!(echo, "\n");
    assert_eq!(done, Some("hi".to_string()));
}

#[test]
fn ctrl_d_finishes_with_exit() {
    let mut ed = Editor::new();
    let catalog = names(&[]);
    let (echo, done) = ed.step(Key::CtrlD, &catalog);
    assert_eq!(echo, "\n");
    assert_eq!(done, Some("exit".to_string()));
}

#[test]
fn arrows_move_within_bounds() {
    let mut ed = Editor::new();
    let catalog = names(&[]);
    type_word(&mut ed, "ab", &catalog);
    let (echo, _) = ed.step(Key::LeftArrow, &catalog);
    assert_eq!(echo, "\u{1b}[D");
    assert_eq!(ed.cursor, 1);
    ed.step(Key::LeftArrow, &catalog);
    ed.step(Key::LeftArrow, &catalog);
    assert_eq!(ed.cursor, 0);
    let (echo, _) = ed.step(Key::RightArrow, &catalog);
    assert_eq!(echo, "\u{1b}[C");
    assert_eq!(ed.cursor, 1);
    ed.step(Key::RightArrow, &catalog);
    ed.step(Key::RightArrow, &catalog);
    assert_eq!(ed.cursor, 2);
}

#[test]
fn backspace_deletes_left_of_cursor() {
    let mut ed = Editor::new();
    let catalog = names(&[]);
    type_word(&mut ed, "abc", &catalog);
    ed.step(Key::LeftArrow, &catalog);
    let (echo, _) = ed.step(Key::Backspace, &catalog);
    assert_eq!(echo, "\u{8}\u{1b}[1P");
    assert_eq!(ed.buffer, vec!['a', 'c']);
    assert_eq!(ed.cursor, 1);
}

#[test]
fn backspace_at_start_does_nothing() {
    let mut ed = Editor::new();
    let catalog = names(&[]);
    let (echo, _) = ed.step(Key::Backspace, &catalog);
    assert_eq!(echo, "");
    assert!(ed.buffer.is_empty());
}

#[test]
fn delete_removes_at_cursor() {
    let mut ed = Editor::new();
    let catalog = names(&[]);
    type_word(&mut ed, "abc", &catalog);
    ed.step(Key::LeftArrow, &catalog);
    ed.step(Key::LeftArrow, &catalog);
    let (echo, _) = ed.step(Key::Delete, &catalog);
    assert_eq!(echo, "\u{1b}[1P");
    assert_eq!(ed.buffer, vec!['a', 'c']);
    assert_eq!(ed.cursor, 1);
}

#[test]
fn ctrl_l_clears_and_redraws() {
    let mut ed = Editor::new();
    let catalog = names(&[]);
    type_word(&mut ed, "ls", &catalog);
    let (echo, done) = ed.step(Key::CtrlL, &catalog);
    assert_eq!(echo, "\u{1b}[1;1H\u{1b}[0J$ ls");
    assert!(done.is_none());
    assert_eq!(ed.buffer, vec!['l', 's']);
}

#[test]
fn single_completion_appends_suffix_and_space() {
    let mut ed = Editor::new();
    let catalog = names(&[]);
    type_word(&mut ed, "ec", &catalog);
    let (echo, done) = ed.step(Key::Tab, &catalog);
    assert_eq!(echo, "ho ");
    assert!(done.is_none());
    let buffer: String = ed.buffer.iter().collect();
    assert_eq!(buffer, "echo ");
    assert_eq!(ed.cursor, 5);
}

#[test]
fn no_completion_rings_bell() {
    let mut ed = Editor::new();
    let catalog = names(&[]);
    type_word(&mut ed, "zz", &catalog);
    let (echo, _) = ed.step(Key::Tab, &catalog);
    assert_eq!(echo, "\u{7}");
}

#[test]
fn common_prefix_extends_without_bell() {
    let mut ed = Editor::new();
    let catalog = names(&["foobar", "foobaz"]);
    type_word(&mut ed, "f", &catalog);
    let (echo, _) = ed.step(Key::Tab, &catalog);
    assert_eq!(echo, "ooba");
    let buffer: String = ed.buffer.iter().collect();
    assert_eq!(buffer, "fooba");
    assert_eq!(ed.cursor, 5);
}

#[test]
fn second_tab_lists_all_candidates_sorted() {
    let mut ed = Editor::new();
    let catalog = names(&["xa", "xb"]);
    type_word(&mut ed, "x", &catalog);
    let (echo, _) = ed.step(Key::Tab, &catalog);
    assert_eq!(echo, "\u{7}");
    let (echo, _) = ed.step(Key::Tab, &catalog);
    assert_eq!(echo, "\nxa  xb\n$ x");
}

#[test]
fn listing_shows_builtin_completions_sorted() {
    let mut ed = Editor::new();
    let catalog = names(&[]);
    type_word(&mut ed, "e", &catalog);
    let (echo, _) = ed.step(Key::Tab, &catalog);
    assert_eq!(echo, "\u{7}");
    let (echo, _) = ed.step(Key::Tab, &catalog);
    assert_eq!(echo, "\necho  exit\n$ e");
}

#[test]
fn completion_deduplicates_candidates() {
    let mut ed = Editor::new();
    let catalog = names(&["echo", "echo"]);
    type_word(&mut ed, "ec", &catalog);
    let (echo, _) = ed.step(Key::Tab, &catalog);
    assert_eq!(echo, "ho ");
}

#[test]
fn cursor_never_leaves_the_buffer() {
    let mut ed = Editor::new();
    let catalog = names(&[]);
    let keys = [
        Key::Char('a'),
        Key::LeftArrow,
        Key::Backspace,
        Key::Char('b'),
        Key::RightArrow,
        Key::RightArrow,
        Key::Delete,
        Key::Char('c'),
        Key::Tab,
    ];
    for k in keys {
        ed.step(k, &catalog);
        assert!(ed.cursor <= ed.buffer.len());
    }
}
