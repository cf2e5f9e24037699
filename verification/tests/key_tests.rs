use shell_core::key::Key;

#[test]
fn plain_byte_is_a_character() {
    let bytes = vec![b'a'];
    assert_eq!(Key::read_key(&bytes, 0), Some((Some(Key::Char('a')), 1)));
}

#[test]
fn backspace_bytes_decode() {
    assert_eq!(Key::read_key(&vec![0x08], 0), Some((Some(Key::Backspace), 1)));
    assert_eq!(Key::read_key(&vec![0x7F], 0), Some((Some(Key::Backspace), 1)));
}

#[test]
fn control_bytes_decode() {
    assert_eq!(Key::read_key(&vec![0x0C], 0), Some((Some(Key::CtrlL), 1)));
    assert_eq!(Key::read_key(&vec![0x04], 0), Some((Some(Key::CtrlD), 1)));
    assert_eq!(Key::read_key(&vec![b'\t'], 0), Some((Some(Key::Tab), 1)));
    assert_eq!(Key::read_key(&vec![b'\n'], 0), Some((Some(Key::Newline), 1)));
    assert_eq!(Key::read_key(&vec![b'\r'], 0), Some((Some(Key::Newline), 1)));
}

#[test]
fn arrow_sequences_decode() {
    assert_eq!(Key::read_key(&vec![0x1B, b'[', b'A'], 0), Some((Some(Key::UpArrow), 3)));
    assert_eq!(Key::read_key(&vec![0x1B, b'[', b'B'], 0), Some((Some(Key::DownArrow), 3)));
    assert_eq!(Key::read_key(&vec![0x1B, b'[', b'C'], 0), Some((Some(Key::RightArrow), 3)));
    assert_eq!(Key::read_key(&vec![0x1B, b'[', b'D'], 0), Some((Some(Key::LeftArrow), 3)));
    assert_eq!(Key::read_key(&vec![0x1B, b'[', b'3'], 0), Some((Some(Key::Delete), 3)));
}

#[test]
fn incomplete_escape_asks_for_more_bytes() {
    assert_eq!(Key::read_key(&vec![0x1B], 0), None);
    assert_eq!(Key::read_key(&vec![0x1B, b'['], 0), None);
}

#[test]
fn unknown_escape_is_a_no_op() {
    assert_eq!(Key::read_key(&vec![0x1B, b'[', b'Z'], 0), Some((None, 3)));
    assert_eq!(Key::read_key(&vec![0x1B, b'x', b'y'], 0), Some((None, 2)));
}

#[test]
fn decoding_continues_mid_buffer() {
    let bytes = vec![b'a', 0x1B, b'[', b'C', b'b'];
    assert_eq!(Key::read_key(&bytes, 1), Some((Some(Key::RightArrow), 4)));
    assert_eq!(Key::read_key(&bytes, 4), Some((Some(Key::Char('b')), 5)));
}
