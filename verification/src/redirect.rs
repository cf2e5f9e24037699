//! The redirection parser: extracts `>`, `1>`, `2>`, `>>`, `1>>` and `2>>`
//! operator-and-filename pairs from an argument vector, leaving the residual
//! arguments, with the last operator for a stream winning.

use vstd::prelude::*;
use crate::split::ParseError;
use crate::text::str_eq;

verus! {

/// Where a command's stdout or stderr is sent: the inherited stream, a file
/// opened with truncation, a file opened for appending, or the write end of
/// a numbered pipeline pipe.
#[derive(Debug)]
pub enum Sink {
    Default,
    Truncate(String),
    Append(String),
    Pipe(usize),
}

/// The mathematical shape of a `Sink`, with file names as character
/// sequences.
pub enum SinkView {
    Default,
    Truncate(Seq<char>),
    Append(Seq<char>),
    Pipe(int),
}

impl View for Sink {
    type V = SinkView;

    open spec fn view(&self) -> SinkView {
        match self {
            Sink::Default => SinkView::Default,
            Sink::Truncate(f) => SinkView::Truncate(f@),
            Sink::Append(f) => SinkView::Append(f@),
            Sink::Pipe(i) => SinkView::Pipe(*i as int),
        }
    }
}

/// The six redirection operator tokens.
pub open spec fn is_redir_op(w: Seq<char>) -> bool {
    w == seq!['>'] || w == seq!['1', '>'] || w == seq!['2', '>'] || w == seq!['>', '>'] || w
        == seq!['1', '>', '>'] || w == seq!['2', '>', '>']
}

/// An operator that targets stderr rather than stdout.
pub open spec fn op_targets_stderr(w: Seq<char>) -> bool {
    w == seq!['2', '>'] || w == seq!['2', '>', '>']
}

/// An operator that opens its file for appending rather than truncating.
pub open spec fn op_appends(w: Seq<char>) -> bool {
    w == seq!['>', '>'] || w == seq!['1', '>', '>'] || w == seq!['2', '>', '>']
}

/// The walk over the argument vector: an operator consumes the following
/// token as its file name (failing when none follows), every other token
/// joins the residual, and a later operator for the same stream overwrites
/// an earlier one.
pub open spec fn redir_rec(
    args: Seq<Seq<char>>,
    res: Seq<Seq<char>>,
    out: SinkView,
    err: SinkView,
) -> Option<(Seq<Seq<char>>, SinkView, SinkView)>
    decreases args.len(),
{
    if args.len() == 0 {
        Some((res, out, err))
    } else {
        let a = args[0];
        if is_redir_op(a) {
            if args.len() == 1 {
                None
            } else {
                let f = args[1];
                let rest = args.skip(2);
                let sink = if op_appends(a) {
                    SinkView::Append(f)
                } else {
                    SinkView::Truncate(f)
                };
                if op_targets_stderr(a) {
                    redir_rec(rest, res, out, sink)
                } else {
                    redir_rec(rest, res, sink, err)
                }
            }
        } else {
            redir_rec(args.skip(1), res.push(a), out, err)
        }
    }
}

/// The residual arguments and the two sinks of an argument vector, or `None`
/// when a redirection operator is the last token.
pub open spec fn redir_spec(args: Seq<Seq<char>>) -> Option<
    (Seq<Seq<char>>, SinkView, SinkView),
> {
    redir_rec(args, Seq::empty(), SinkView::Default, SinkView::Default)
}

/// Classifies a token: `None` for an ordinary argument, or
/// `Some((to_stderr, append))` for a redirection operator.
fn redir_op_kind(w: &str) -> (r: Option<(bool, bool)>)
    ensures
        match r {
            None => !is_redir_op(w@),
            Some((to_err, append)) => is_redir_op(w@) && to_err == op_targets_stderr(w@) && append
                == op_appends(w@),
        },
{
    proof {
        reveal_strlit(">");
        reveal_strlit("1>");
        reveal_strlit("2>");
        reveal_strlit(">>");
        reveal_strlit("1>>");
        reveal_strlit("2>>");
        assert(">"@ =~= seq!['>']);
        assert("1>"@ =~= seq!['1', '>']);
        assert("2>"@ =~= seq!['2', '>']);
        assert(">>"@ =~= seq!['>', '>']);
        assert("1>>"@ =~= seq!['1', '>', '>']);
        assert("2>>"@ =~= seq!['2', '>', '>']);
    }
    if str_eq(w, ">") || str_eq(w, "1>") {
        Some((false, false))
    } else if str_eq(w, "2>") {
        Some((true, false))
    } else if str_eq(w, ">>") || str_eq(w, "1>>") {
        Some((false, true))
    } else if str_eq(w, "2>>") {
        Some((true, true))
    } else {
        None
    }
}

/// Walks the argument vector left to right, pairing each redirection
/// operator with the token that follows it as a file name; returns the
/// residual arguments and the stdout and stderr sinks, the last operator for
/// a stream winning. Fails exactly when an operator is the last token.
pub fn parse_redirections(args: &Vec<String>) -> (r: Result<
    (Vec<String>, Sink, Sink),
    ParseError,
>)
    ensures
        match r {
            Ok((res, out, err)) => redir_spec(args.deep_view()) == Some(
                (res.deep_view(), out@, err@),
            ),
            Err(_) => redir_spec(args.deep_view()) is None,
        },
{
    let mut res: Vec<String> = Vec::new();
    let mut out = Sink::Default;
    let mut err = Sink::Default;
    let mut i: usize = 0;
    let ghost all = args.deep_view();

    proof {
        assert(all.skip(0) =~= all);
        assert(res.deep_view() =~= Seq::<Seq<char>>::empty());
    }
    while i < args.len()
        invariant
            i <= args.len(),
            all == args.deep_view(),
            redir_rec(all.skip(i as int), res.deep_view(), out@, err@) == redir_spec(all),
        decreases args.len() - i,
    {
        proof {
            assert(all.skip(i as int)[0] == all[i as int]);
        }
        match redir_op_kind(args[i].as_str()) {
            None => {
                let ghost prev = res.deep_view();
                res.push(args[i].clone());
                proof {
                    assert(res.deep_view() =~= prev.push(all[i as int]));
                    assert(all.skip(i as int).skip(1) =~= all.skip(i as int + 1));
                }
                i += 1;
            },
            Some((to_err, append)) => {
                if i + 1 == args.len() {
                    proof {
                        assert(all.skip(i as int).len() == 1);
                    }
                    return Err(ParseError);
                }
                let f = args[i + 1].clone();
                let sink = if append {
                    Sink::Append(f)
                } else {
                    Sink::Truncate(f)
                };
                if to_err {
                    err = sink;
                } else {
                    out = sink;
                }
                proof {
                    assert(all.skip(i as int)[1] == all[i as int + 1]);
                    assert(all.skip(i as int).skip(2) =~= all.skip(i as int + 2));
                }
                i += 2;
            },
        }
    }
    proof {
        assert(all.skip(args.len() as int) =~= Seq::<Seq<char>>::empty());
    }
    Ok((res, out, err))
}

/// The residual of a vector: every token kept except the recognised
/// operator-and-filename pairs, in their original order.
pub open spec fn strip_redirs(args: Seq<Seq<char>>) -> Seq<Seq<char>>
    decreases args.len(),
{
    if args.len() == 0 {
        Seq::empty()
    } else if is_redir_op(args[0]) {
        if args.len() == 1 {
            Seq::empty()
        } else {
            strip_redirs(args.skip(2))
        }
    } else {
        seq![args[0]] + strip_redirs(args.skip(1))
    }
}

/// Generalisation over the accumulator: a successful walk yields the
/// already-kept tokens followed by the stripped remainder.
proof fn lemma_redir_rec_residual(
    args: Seq<Seq<char>>,
    res: Seq<Seq<char>>,
    out: SinkView,
    err: SinkView,
)
    requires
        redir_rec(args, res, out, err) is Some,
    ensures
        redir_rec(args, res, out, err).unwrap().0 == res + strip_redirs(args),
    decreases args.len(),
{
    if args.len() == 0 {
        assert(res + strip_redirs(args) =~= res);
    } else {
        let a = args[0];
        if is_redir_op(a) {
            let f = args[1];
            let sink = if op_appends(a) {
                SinkView::Append(f)
            } else {
                SinkView::Truncate(f)
            };
            if op_targets_stderr(a) {
                lemma_redir_rec_residual(args.skip(2), res, out, sink);
            } else {
                lemma_redir_rec_residual(args.skip(2), res, sink, err);
            }
        } else {
            lemma_redir_rec_residual(args.skip(1), res.push(a), out, err);
            assert(res.push(a) + strip_redirs(args.skip(1)) =~= res + (seq![a] + strip_redirs(
                args.skip(1),
            )));
        }
    }
}

/// The residual the parser returns is the argument vector with all
/// recognised operator-and-filename pairs removed, in order.
pub proof fn lemma_residual_strips_redirections(args: Seq<Seq<char>>)
    requires
        redir_spec(args) is Some,
    ensures
        redir_spec(args).unwrap().0 == strip_redirs(args),
{
    lemma_redir_rec_residual(args, Seq::empty(), SinkView::Default, SinkView::Default);
    assert(Seq::<Seq<char>>::empty() + strip_redirs(args) =~= strip_redirs(args));
}

/// No redirection operator survives into the residual.
pub proof fn lemma_residual_free_of_operators(args: Seq<Seq<char>>, k: int)
    requires
        redir_spec(args) is Some,
        0 <= k < redir_spec(args).unwrap().0.len(),
    ensures
        !is_redir_op(redir_spec(args).unwrap().0[k]),
{
    lemma_residual_strips_redirections(args);
    lemma_strip_free_of_operators(args, k);
}

/// Every token of the stripped residual is an ordinary argument.
proof fn lemma_strip_free_of_operators(args: Seq<Seq<char>>, k: int)
    requires
        0 <= k < strip_redirs(args).len(),
    ensures
        !is_redir_op(strip_redirs(args)[k]),
    decreases args.len(),
{
    if args.len() > 0 {
        if is_redir_op(args[0]) {
            if args.len() > 1 {
                lemma_strip_free_of_operators(args.skip(2), k);
            }
        } else {
            if k > 0 {
                lemma_strip_free_of_operators(args.skip(1), k - 1);
            }
        }
    }
}

} // verus!
