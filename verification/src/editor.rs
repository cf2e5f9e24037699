//! The line editor: a buffer and cursor driven one keystroke at a time, with
//! insertion, cursor movement, deletion, screen clearing, two-phase tab
//! completion, and the control sequences echoed for each key.

use vstd::prelude::*;
use crate::completion::{candidates_spec, completion_candidates, lcp_all, lcp_all_exec};
use crate::key::Key;
use crate::text::{chars_to_string, join_with, join_words, push_str_chars};

verus! {

/// The editor's state while a line is being typed: the characters so far,
/// the cursor position inside them, and the tab-press parity for two-phase
/// completion.
pub struct Editor {
    pub buffer: Vec<char>,
    pub cursor: usize,
    pub tab_count: usize,
}

/// The mathematical shape of an `Editor`.
pub struct EditorView {
    pub buffer: Seq<char>,
    pub cursor: int,
    pub tab_count: int,
}

impl View for Editor {
    type V = EditorView;

    open spec fn view(&self) -> EditorView {
        EditorView {
            buffer: self.buffer@,
            cursor: self.cursor as int,
            tab_count: self.tab_count as int,
        }
    }
}

/// What a keystroke does to the editor: the next state, the text echoed to
/// the terminal, and the finished line, if the keystroke ends the input.
pub open spec fn step_spec(ed: EditorView, key: Key, names: Seq<Seq<char>>) -> (
    EditorView,
    Seq<char>,
    Option<Seq<char>>,
) {
    match key {
        Key::Char(c) => (
            EditorView {
                buffer: ed.buffer.insert(ed.cursor, c),
                cursor: ed.cursor + 1,
                tab_count: ed.tab_count,
            },
            "\u{1b}[4h"@ + seq![c] + "\u{1b}[4l"@,
            None,
        ),
        Key::RightArrow => (
            EditorView {
                buffer: ed.buffer,
                cursor: if ed.cursor < ed.buffer.len() {
                    ed.cursor + 1
                } else {
                    ed.buffer.len() as int
                },
                tab_count: ed.tab_count,
            },
            "\u{1b}[C"@,
            None,
        ),
        Key::LeftArrow => (
            EditorView {
                buffer: ed.buffer,
                cursor: if ed.cursor > 0 {
                    ed.cursor - 1
                } else {
                    0
                },
                tab_count: ed.tab_count,
            },
            "\u{1b}[D"@,
            None,
        ),
        Key::Backspace => if ed.cursor > 0 {
            (
                EditorView {
                    buffer: ed.buffer.remove(ed.cursor - 1),
                    cursor: ed.cursor - 1,
                    tab_count: ed.tab_count,
                },
                "\u{8}\u{1b}[1P"@,
                None,
            )
        } else {
            (ed, Seq::empty(), None)
        },
        Key::Delete => if ed.cursor < ed.buffer.len() {
            (
                EditorView {
                    buffer: ed.buffer.remove(ed.cursor),
                    cursor: ed.cursor,
                    tab_count: ed.tab_count,
                },
                "\u{1b}[1P"@,
                None,
            )
        } else {
            (ed, Seq::empty(), None)
        },
        Key::Newline => (ed, "\n"@, Some(ed.buffer)),
        Key::CtrlL => (ed, "\u{1b}[1;1H\u{1b}[0J$ "@ + ed.buffer, None),
        Key::CtrlD => (ed, "\n"@, Some("exit"@)),
        Key::UpArrow => (ed, Seq::empty(), None),
        Key::DownArrow => (ed, Seq::empty(), None),
        Key::Tab => {
            let tc: int = if ed.tab_count == 1 {
                0
            } else {
                1
            };
            let cs = candidates_spec(names, ed.buffer);
            if cs.len() == 0 {
                (
                    EditorView { buffer: ed.buffer, cursor: ed.cursor, tab_count: tc },
                    "\u{7}"@,
                    None,
                )
            } else if cs.len() == 1 {
                (
                    EditorView {
                        buffer: ed.buffer + cs[0] + seq![' '],
                        cursor: ed.cursor + cs[0].len() + 1,
                        tab_count: tc,
                    },
                    cs[0].push(' '),
                    None,
                )
            } else {
                let p = lcp_all(cs);
                if p.len() > 0 {
                    (
                        EditorView {
                            buffer: ed.buffer + p,
                            cursor: ed.cursor + p.len(),
                            tab_count: tc,
                        },
                        p,
                        None,
                    )
                } else if tc == 1 {
                    (
                        EditorView { buffer: ed.buffer, cursor: ed.cursor, tab_count: tc },
                        "\u{7}"@,
                        None,
                    )
                } else {
                    (
                        EditorView { buffer: ed.buffer, cursor: ed.cursor, tab_count: tc },
                        seq!['\n'] + join_with(
                            cs.map_values(|s: Seq<char>| ed.buffer + s),
                            seq![' ', ' '],
                        ) + seq!['\n'] + "$ "@ + ed.buffer,
                        None,
                    )
                }
            }
        },
    }
}

impl Editor {
    /// The cursor stays inside the buffer and the tab parity is a bit.
    pub open spec fn wf(&self) -> bool {
        self.cursor <= self.buffer@.len() && self.tab_count < 2
    }

    /// A fresh editor for one input line.
    pub fn new() -> (ed: Editor)
        ensures
            ed.wf(),
            ed@.buffer =~= Seq::<char>::empty(),
            ed@.cursor == 0,
            ed@.tab_count == 0,
    {
        Editor { buffer: Vec::new(), cursor: 0, tab_count: 0 }
    }

    /// Applies one keystroke: inserts or deletes at the cursor, moves it,
    /// completes on Tab against the builtin and catalog names, clears the
    /// screen on Ctrl-L, and finishes the line on Newline (the buffer) or
    /// Ctrl-D (the line `exit`). Returns the text to echo and the finished
    /// line, if any.
    pub fn step(&mut self, key: Key, names: &Vec<String>) -> (r: (String, Option<String>))
        requires
            old(self).wf(),
        ensures
            final(self).wf(),
            (
                final(self)@,
                r.0@,
                match r.1 {
                    Some(s) => Some(s@),
                    None => None,
                },
            ) == step_spec(old(self)@, key, names.deep_view()),
    {
        match key {
            Key::Char(c) => {
                self.buffer.insert(self.cursor, c);
                let nl = self.buffer.len();
                proof {
                    assert(self.cursor < nl);
                }
                self.cursor += 1;
                let mut e = String::from_str("\u{1b}[4h");
                let mut one: Vec<char> = Vec::new();
                one.push(c);
                e.append(chars_to_string(&one).as_str());
                e.append("\u{1b}[4l");
                proof {
                    assert(one@ =~= seq![c]);
                    assert(e@ =~= "\u{1b}[4h"@ + seq![c] + "\u{1b}[4l"@);
                }
                (e, None)
            },
            Key::RightArrow => {
                if self.cursor < self.buffer.len() {
                    self.cursor += 1;
                }
                (String::from_str("\u{1b}[C"), None)
            },
            Key::LeftArrow => {
                if self.cursor > 0 {
                    self.cursor -= 1;
                }
                (String::from_str("\u{1b}[D"), None)
            },
            Key::Backspace => {
                if self.cursor > 0 {
                    self.buffer.remove(self.cursor - 1);
                    self.cursor -= 1;
                    (String::from_str("\u{8}\u{1b}[1P"), None)
                } else {
                    (String::new(), None)
                }
            },
            Key::Delete => {
                if self.cursor < self.buffer.len() {
                    self.buffer.remove(self.cursor);
                    (String::from_str("\u{1b}[1P"), None)
                } else {
                    (String::new(), None)
                }
            },
            Key::Newline => {
                let line = chars_to_string(&self.buffer);
                (String::from_str("\n"), Some(line))
            },
            Key::CtrlL => {
                let mut e = String::from_str("\u{1b}[1;1H\u{1b}[0J$ ");
                e.append(chars_to_string(&self.buffer).as_str());
                (e, None)
            },
            Key::CtrlD => {
                (String::from_str("\n"), Some(String::from_str("exit")))
            },
            Key::UpArrow => {
                (String::new(), None)
            },
            Key::DownArrow => {
                (String::new(), None)
            },
            Key::Tab => {
                let ghost edv = old(self)@;
                let ghost cs = candidates_spec(names.deep_view(), edv.buffer);
                self.tab_count = if self.tab_count == 1 {
                    0
                } else {
                    1
                };
                let cands = completion_candidates(&self.buffer, names);
                if cands.len() == 0 {
                    (String::from_str("\u{7}"), None)
                } else if cands.len() == 1 {
                    let old_len = self.buffer.len();
                    push_str_chars(&mut self.buffer, cands[0].as_str());
                    self.buffer.push(' ');
                    self.cursor += self.buffer.len() - old_len;
                    let mut e = cands[0].clone();
                    e.append(" ");
                    proof {
                        reveal_strlit(" ");
                        assert(self.buffer@ =~= edv.buffer + cs[0] + seq![' ']);
                        assert(e@ =~= cs[0].push(' '));
                    }
                    (e, None)
                } else {
                    let p = lcp_all_exec(&cands);
                    if p.as_str().unicode_len() > 0 {
                        let old_len = self.buffer.len();
                        push_str_chars(&mut self.buffer, p.as_str());
                        self.cursor += self.buffer.len() - old_len;
                        (p, None)
                    } else if self.tab_count == 1 {
                        (String::from_str("\u{7}"), None)
                    } else {
                        let ghost full = cs.map_values(|s: Seq<char>| edv.buffer + s);
                        let mut words: Vec<String> = Vec::new();
                        let mut k: usize = 0;
                        proof {
                            assert(words.deep_view() =~= full.take(0));
                        }
                        while k < cands.len()
                            invariant
                                k <= cands.len(),
                                cands.deep_view() == cs,
                                full == cs.map_values(|s: Seq<char>| edv.buffer + s),
                                edv.buffer == self.buffer@,
                                words.deep_view() == full.take(k as int),
                            decreases cands.len() - k,
                        {
                            let mut w = chars_to_string(&self.buffer);
                            w.append(cands[k].as_str());
                            let ghost prev = words.deep_view();
                            words.push(w);
                            proof {
                                assert(words.deep_view() =~= prev.push(full[k as int]));
                                assert(words.deep_view() =~= full.take(k as int + 1));
                            }
                            k += 1;
                        }
                        proof {
                            assert(full.take(cands.len() as int) =~= full);
                        }
                        let list = join_words(&words, "  ");
                        let mut e = String::from_str("\n");
                        e.append(list.as_str());
                        e.append("\n$ ");
                        e.append(chars_to_string(&self.buffer).as_str());
                        proof {
                            reveal_strlit("\n");
                            reveal_strlit("\n$ ");
                            reveal_strlit("$ ");
                            reveal_strlit("  ");
                            assert("\n"@ =~= seq!['\n']);
                            assert("  "@ =~= seq![' ', ' ']);
                            assert("\n$ "@ =~= seq!['\n'] + "$ "@);
                            assert(e@ =~= seq!['\n'] + join_with(full, seq![' ', ' ']) + seq![
                                '\n',
                            ] + "$ "@ + edv.buffer);
                        }
                        (e, None)
                    }
                }
            },
        }
    }
}

} // verus!
