//! The word splitter: tokenises an input line into argument words, honouring
//! single quotes, double quotes and backslash escapes, with an error for a
//! line that ends inside an unterminated quote.

use vstd::prelude::*;
use crate::text::{chars_to_string, is_space, is_space_char, join_with};

verus! {

/// The error returned when an input line ends inside an unterminated quote.
#[derive(Clone, Copy, Debug, PartialEq, Eq, Structural)]
pub struct ParseError;

/// The states of the splitter's character-driven machine.
#[derive(Clone, Copy, Debug, PartialEq, Eq, Structural)]
pub enum SplitMode {
    Delimiter,
    Unquoted,
    SingleQuoted,
    DoubleQuoted,
    Backslash,
}

/// One transition of the splitter's machine, looking at the mode alone.
pub open spec fn mode_step(st: SplitMode, c: char) -> SplitMode {
    match st {
        SplitMode::Delimiter | SplitMode::Unquoted => {
            if c == '\'' {
                SplitMode::SingleQuoted
            } else if c == '"' {
                SplitMode::DoubleQuoted
            } else if c == '\\' {
                SplitMode::Backslash
            } else if is_space_char(c) {
                SplitMode::Delimiter
            } else {
                SplitMode::Unquoted
            }
        },
        SplitMode::SingleQuoted => {
            if c == '\'' {
                SplitMode::Unquoted
            } else {
                SplitMode::SingleQuoted
            }
        },
        SplitMode::DoubleQuoted => {
            if c == '"' {
                SplitMode::Unquoted
            } else {
                SplitMode::DoubleQuoted
            }
        },
        SplitMode::Backslash => {
            if c == '\n' {
                SplitMode::Delimiter
            } else {
                SplitMode::Unquoted
            }
        },
    }
}

/// The mode the machine is in after consuming all of `s` from `st`.
pub open spec fn final_mode(s: Seq<char>, st: SplitMode) -> SplitMode
    decreases s.len(),
{
    if s.len() == 0 {
        st
    } else {
        final_mode(s.skip(1), mode_step(st, s[0]))
    }
}

/// Whether `s` ends inside a single- or double-quoted region.
pub open spec fn ends_inside_quotes(s: Seq<char>) -> bool {
    final_mode(s, SplitMode::Delimiter) is SingleQuoted || final_mode(
        s,
        SplitMode::Delimiter,
    ) is DoubleQuoted
}

/// The splitter's machine run over `s` from mode `st`, with `word` the
/// accumulated current word and `words` those already produced. `None` means
/// the input ended inside a quoted region.
pub open spec fn split_rec(
    s: Seq<char>,
    st: SplitMode,
    word: Seq<char>,
    words: Seq<Seq<char>>,
) -> Option<Seq<Seq<char>>>
    decreases s.len(),
{
    if s.len() == 0 {
        match st {
            SplitMode::Delimiter => Some(words),
            SplitMode::Unquoted => Some(words.push(word)),
            SplitMode::SingleQuoted => None,
            SplitMode::DoubleQuoted => None,
            SplitMode::Backslash => Some(words.push(word.push('\\'))),
        }
    } else {
        let c = s[0];
        let rest = s.skip(1);
        match st {
            SplitMode::Delimiter | SplitMode::Unquoted => {
                if c == '\'' {
                    split_rec(rest, SplitMode::SingleQuoted, word, words)
                } else if c == '"' {
                    split_rec(rest, SplitMode::DoubleQuoted, word, words)
                } else if c == '\\' {
                    split_rec(rest, SplitMode::Backslash, word, words)
                } else if is_space_char(c) {
                    if st is Unquoted {
                        split_rec(rest, SplitMode::Delimiter, Seq::empty(), words.push(word))
                    } else {
                        split_rec(rest, SplitMode::Delimiter, word, words)
                    }
                } else {
                    split_rec(rest, SplitMode::Unquoted, word.push(c), words)
                }
            },
            SplitMode::SingleQuoted => {
                if c == '\'' {
                    split_rec(rest, SplitMode::Unquoted, word, words)
                } else {
                    split_rec(rest, SplitMode::SingleQuoted, word.push(c), words)
                }
            },
            SplitMode::DoubleQuoted => {
                if c == '"' {
                    split_rec(rest, SplitMode::Unquoted, word, words)
                } else {
                    split_rec(rest, SplitMode::DoubleQuoted, word.push(c), words)
                }
            },
            SplitMode::Backslash => {
                if c == '\n' {
                    split_rec(rest, SplitMode::Delimiter, word, words)
                } else {
                    split_rec(rest, SplitMode::Unquoted, word.push(c), words)
                }
            },
        }
    }
}

/// The words of `s`, or `None` when `s` ends inside a quoted region.
pub open spec fn split_spec(s: Seq<char>) -> Option<Seq<Seq<char>>> {
    split_rec(s, SplitMode::Delimiter, Seq::empty(), Seq::empty())
}

/// Splits the line into argument words: whitespace delimits, single quotes
/// preserve everything up to the closing quote, double quotes likewise, a
/// backslash escapes the next character (backslash-newline is a line
/// continuation), and adjacent quoted and unquoted runs concatenate into one
/// word. Fails exactly when the line ends inside an unterminated quote.
pub fn split(s: &str) -> (r: Result<Vec<String>, ParseError>)
    ensures
        match r {
            Ok(words) => split_spec(s@) == Some(words.deep_view()),
            Err(_) => split_spec(s@) is None,
        },
{
    let n = s.unicode_len();
    let mut mode = SplitMode::Delimiter;
    let mut word: Vec<char> = Vec::new();
    let mut words: Vec<String> = Vec::new();
    let mut i: usize = 0;

    proof {
        assert(s@.skip(0) =~= s@);
        assert(words.deep_view() =~= Seq::<Seq<char>>::empty());
    }
    while i < n
        invariant
            i <= n,
            n == s@.len(),
            split_rec(s@.skip(i as int), mode, word@, words.deep_view()) == split_spec(s@),
        decreases n - i,
    {
        let c = s.get_char(i);
        proof {
            assert(s@.skip(i as int)[0] == c);
            assert(s@.skip(i as int).skip(1) =~= s@.skip(i as int + 1));
        }
        let ghost prev_words = words.deep_view();
        match mode {
            SplitMode::Delimiter | SplitMode::Unquoted => {
                if c == '\'' {
                    mode = SplitMode::SingleQuoted;
                } else if c == '"' {
                    mode = SplitMode::DoubleQuoted;
                } else if c == '\\' {
                    mode = SplitMode::Backslash;
                } else if is_space(c) {
                    if let SplitMode::Unquoted = mode {
                        words.push(chars_to_string(&word));
                        word.clear();
                        proof {
                            assert(words.deep_view() =~= prev_words.push(
                                words.deep_view()[prev_words.len() as int],
                            ));
                        }
                    }
                    mode = SplitMode::Delimiter;
                } else {
                    word.push(c);
                    mode = SplitMode::Unquoted;
                }
            },
            SplitMode::SingleQuoted => {
                if c == '\'' {
                    mode = SplitMode::Unquoted;
                } else {
                    word.push(c);
                }
            },
            SplitMode::DoubleQuoted => {
                if c == '"' {
                    mode = SplitMode::Unquoted;
                } else {
                    word.push(c);
                }
            },
            SplitMode::Backslash => {
                if c == '\n' {
                    mode = SplitMode::Delimiter;
                } else {
                    word.push(c);
                    mode = SplitMode::Unquoted;
                }
            },
        }
        i += 1;
    }

    proof {
        assert(s@.skip(n as int) =~= Seq::<char>::empty());
    }
    let ghost prev_words = words.deep_view();
    match mode {
        SplitMode::Delimiter => Ok(words),
        SplitMode::Unquoted => {
            words.push(chars_to_string(&word));
            proof {
                assert(words.deep_view() =~= prev_words.push(
                    words.deep_view()[prev_words.len() as int],
                ));
            }
            Ok(words)
        },
        SplitMode::SingleQuoted => Err(ParseError),
        SplitMode::DoubleQuoted => Err(ParseError),
        SplitMode::Backslash => {
            word.push('\\');
            words.push(chars_to_string(&word));
            proof {
                assert(words.deep_view() =~= prev_words.push(
                    words.deep_view()[prev_words.len() as int],
                ));
            }
            Ok(words)
        },
    }
}

/// The run of the machine fails on exactly the inputs whose final mode is a
/// quote state, whatever word was accumulated so far.
proof fn lemma_split_none_iff_quote_mode(
    s: Seq<char>,
    st: SplitMode,
    word: Seq<char>,
    words: Seq<Seq<char>>,
)
    ensures
        split_rec(s, st, word, words) is None <==> (final_mode(s, st) is SingleQuoted || final_mode(
            s,
            st,
        ) is DoubleQuoted),
    decreases s.len(),
{
    if s.len() > 0 {
        let c = s[0];
        let rest = s.skip(1);
        let st2 = mode_step(st, c);
        lemma_split_none_iff_quote_mode(rest, st2, word, words);
        lemma_split_none_iff_quote_mode(rest, st2, word.push(c), words);
        lemma_split_none_iff_quote_mode(rest, st2, Seq::empty(), words.push(word));
    }
}

/// Splitting fails if and only if the input ends inside a single- or
/// double-quoted region.
pub proof fn lemma_split_fails_iff_unterminated_quote(s: Seq<char>)
    ensures
        split_spec(s) is None <==> ends_inside_quotes(s),
{
    lemma_split_none_iff_quote_mode(s, SplitMode::Delimiter, Seq::empty(), Seq::empty());
}

/// A string with none of the splitter's quoting characters.
pub open spec fn plain_chars(s: Seq<char>) -> bool {
    forall|i: int| 0 <= i < s.len() ==> s[i] != '\'' && s[i] != '"' && s[i] != '\\'
}

/// A word as the splitter produces it from plain input: non-empty, plain,
/// and free of whitespace.
pub open spec fn plain_word(w: Seq<char>) -> bool {
    w.len() > 0 && plain_chars(w) && (forall|i: int| 0 <= i < w.len() ==> !is_space_char(w[i]))
}

/// On plain input the machine never fails and only produces plain words.
proof fn lemma_plain_split_ok(s: Seq<char>, st: SplitMode, word: Seq<char>, words: Seq<Seq<char>>)
    requires
        plain_chars(s),
        st is Delimiter || st is Unquoted,
        st is Delimiter ==> word == Seq::<char>::empty(),
        st is Unquoted ==> plain_word(word),
        forall|k: int| 0 <= k < words.len() ==> plain_word(#[trigger] words[k]),
    ensures
        split_rec(s, st, word, words) is Some,
        forall|k: int|
            0 <= k < split_rec(s, st, word, words).unwrap().len() ==> plain_word(
                #[trigger] split_rec(s, st, word, words).unwrap()[k],
            ),
    decreases s.len(),
{
    if s.len() == 0 {
        if st is Unquoted {
            let res = words.push(word);
            assert(forall|k: int| 0 <= k < res.len() ==> plain_word(#[trigger] res[k]));
        }
    } else {
        let c = s[0];
        let rest = s.skip(1);
        assert(plain_chars(rest)) by {
            assert(forall|i: int| 0 <= i < rest.len() ==> rest[i] == s[i + 1]);
        }
        if is_space_char(c) {
            if st is Unquoted {
                let pushed = words.push(word);
                assert(forall|k: int| 0 <= k < pushed.len() ==> plain_word(#[trigger] pushed[k]));
                lemma_plain_split_ok(rest, SplitMode::Delimiter, Seq::empty(), pushed);
            } else {
                lemma_plain_split_ok(rest, SplitMode::Delimiter, word, words);
            }
        } else {
            assert(c != '\'' && c != '"' && c != '\\');
            assert(plain_word(word.push(c))) by {
                assert(forall|i: int|
                    0 <= i < word.len() ==> #[trigger] word.push(c)[i] == word[i]);
                assert(word.push(c)[word.len() as int] == c);
            }
            lemma_plain_split_ok(rest, SplitMode::Unquoted, word.push(c), words);
        }
    }
}

/// Consuming a plain word in `Unquoted` mode appends its characters to the
/// accumulator and leaves the machine in `Unquoted` mode.
proof fn lemma_consume_plain_word(w: Seq<char>, t: Seq<char>, word: Seq<char>, words: Seq<Seq<char>>)
    requires
        plain_chars(w),
        forall|i: int| 0 <= i < w.len() ==> !is_space_char(#[trigger] w[i]),
    ensures
        split_rec(w + t, SplitMode::Unquoted, word, words) == split_rec(
            t,
            SplitMode::Unquoted,
            word + w,
            words,
        ),
    decreases w.len(),
{
    if w.len() == 0 {
        assert(w + t =~= t);
        assert(word + w =~= word);
    } else {
        let c = w[0];
        assert((w + t)[0] == c);
        assert((w + t).skip(1) =~= w.skip(1) + t);
        assert(plain_chars(w.skip(1)) && forall|i: int|
            0 <= i < w.skip(1).len() ==> !is_space_char(#[trigger] w.skip(1)[i])) by {
            assert(forall|i: int| 0 <= i < w.skip(1).len() ==> w.skip(1)[i] == w[i + 1]);
        }
        lemma_consume_plain_word(w.skip(1), t, word.push(c), words);
        assert(word.push(c) + w.skip(1) =~= word + w);
    }
}

/// Splitting the space-joined plain words appends exactly those words.
proof fn lemma_split_of_join(ws: Seq<Seq<char>>, acc: Seq<Seq<char>>)
    requires
        forall|k: int| 0 <= k < ws.len() ==> plain_word(#[trigger] ws[k]),
    ensures
        split_rec(join_with(ws, seq![' ']), SplitMode::Delimiter, Seq::empty(), acc) == Some(
            acc + ws,
        ),
    decreases ws.len(),
{
    let sep = seq![' '];
    if ws.len() == 0 {
        assert(join_with(ws, sep).len() == 0);
        assert(acc + ws =~= acc);
    } else {
        let w = ws[0];
        let c = w[0];
        let s = join_with(ws, sep);
        let tail: Seq<char> = if ws.len() == 1 {
            Seq::empty()
        } else {
            sep + join_with(ws.skip(1), sep)
        };
        assert(s =~= w + tail);
        assert(s[0] == c);
        assert(!is_space_char(c) && c != '\'' && c != '"' && c != '\\');
        assert(s.skip(1) =~= w.skip(1) + tail);
        assert(split_rec(s, SplitMode::Delimiter, Seq::empty(), acc) == split_rec(
            w.skip(1) + tail,
            SplitMode::Unquoted,
            seq![c],
            acc,
        ));
        assert(plain_chars(w.skip(1)) && forall|i: int|
            0 <= i < w.skip(1).len() ==> !is_space_char(#[trigger] w.skip(1)[i])) by {
            assert(forall|i: int| 0 <= i < w.skip(1).len() ==> w.skip(1)[i] == w[i + 1]);
        }
        lemma_consume_plain_word(w.skip(1), tail, seq![c], acc);
        assert(seq![c] + w.skip(1) =~= w);
        if ws.len() == 1 {
            assert(split_rec(tail, SplitMode::Unquoted, w, acc) == Some(acc.push(w)));
            assert(acc.push(w) =~= acc + ws);
        } else {
            assert(tail[0] == ' ');
            assert(is_space_char(' '));
            assert(tail.skip(1) =~= join_with(ws.skip(1), sep));
            assert(split_rec(tail, SplitMode::Unquoted, w, acc) == split_rec(
                join_with(ws.skip(1), sep),
                SplitMode::Delimiter,
                Seq::empty(),
                acc.push(w),
            ));
            lemma_split_of_join(ws.skip(1), acc.push(w));
            assert(acc.push(w) + ws.skip(1) =~= acc + ws);
        }
    }
}

/// On input with no quoting characters the splitter succeeds, and rejoining
/// its words with single spaces and re-splitting yields the same words.
pub proof fn lemma_split_rejoin_roundtrip(s: Seq<char>)
    requires
        plain_chars(s),
    ensures
        split_spec(s) is Some,
        split_spec(join_with(split_spec(s).unwrap(), seq![' '])) == split_spec(s),
{
    lemma_plain_split_ok(s, SplitMode::Delimiter, Seq::empty(), Seq::empty());
    let ws = split_spec(s).unwrap();
    lemma_split_of_join(ws, Seq::empty());
    assert(Seq::<Seq<char>>::empty() + ws =~= ws);
}

} // verus!
