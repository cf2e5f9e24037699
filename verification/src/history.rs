//! The `history` builtin's argument grammar and its listing, write and
//! append contents: `-r <file>` reads a file into the history, `-w <file>`
//! writes a selection, `-a <file>` appends the not-yet-persisted slice, and
//! a numeric argument selects the last `n` entries to show.

use vstd::prelude::*;
use crate::text::{
    dec_digits, dec_string, dec_value, is_dec_digit, join_with, join_words, pad_left,
    pad_left_spaces, parse_usize, str_eq,
};

verus! {

/// What a run of the `history` builtin was asked to do.
pub enum HistoryCmd {
    /// Show the last `n` entries, or all of them.
    Show(Option<usize>),
    /// Read a file line by line into the history.
    Read(String),
    /// Write the selection the numeric rule picks to a file.
    Write(String, Option<usize>),
    /// Append the not-yet-persisted entries to a file.
    Append(String),
}

/// The mathematical shape of a `HistoryCmd`.
pub enum HistoryCmdView {
    Show(Option<int>),
    Read(Seq<char>),
    Write(Seq<char>, Option<int>),
    Append(Seq<char>),
}

impl View for HistoryCmd {
    type V = HistoryCmdView;

    open spec fn view(&self) -> HistoryCmdView {
        match self {
            HistoryCmd::Show(n) => HistoryCmdView::Show(
                match n {
                    Some(v) => Some(*v as int),
                    None => None,
                },
            ),
            HistoryCmd::Read(f) => HistoryCmdView::Read(f@),
            HistoryCmd::Write(f, n) => HistoryCmdView::Write(
                f@,
                match n {
                    Some(v) => Some(*v as int),
                    None => None,
                },
            ),
            HistoryCmd::Append(f) => HistoryCmdView::Append(f@),
        }
    }
}

/// The ways the `history` builtin rejects its arguments.
pub enum HistoryError {
    /// An option was not followed by its file name.
    MissingFile,
    /// An argument that is no option failed to parse as a count.
    BadNumber(String),
    /// Something followed the count.
    TrailingArg(String),
    /// `-w` and `-a` were both given.
    Exclusive,
    /// `-r` was combined with `-w`, `-a` or a count.
    ReadCombined,
}

/// The mathematical shape of a `HistoryError`.
pub enum HistoryErrorView {
    MissingFile,
    BadNumber(Seq<char>),
    TrailingArg(Seq<char>),
    Exclusive,
    ReadCombined,
}

impl View for HistoryError {
    type V = HistoryErrorView;

    open spec fn view(&self) -> HistoryErrorView {
        match self {
            HistoryError::MissingFile => HistoryErrorView::MissingFile,
            HistoryError::BadNumber(s) => HistoryErrorView::BadNumber(s@),
            HistoryError::TrailingArg(s) => HistoryErrorView::TrailingArg(s@),
            HistoryError::Exclusive => HistoryErrorView::Exclusive,
            HistoryError::ReadCombined => HistoryErrorView::ReadCombined,
        }
    }
}

/// The message each rejection prints.
pub open spec fn history_error_message(e: HistoryErrorView) -> Seq<char> {
    match e {
        HistoryErrorView::MissingFile => "expected <history_file>"@,
        HistoryErrorView::BadNumber(s) => "could not parse number `"@ + s + "`"@,
        HistoryErrorView::TrailingArg(s) => "unexpected argument `"@ + s + "`"@,
        HistoryErrorView::Exclusive => "options -w and -a are mutually exclusive"@,
        HistoryErrorView::ReadCombined => "option -r cannot be combined with -w, -a or a count"@,
    }
}

impl HistoryError {
    /// Renders the rejection for the builtin's stderr line.
    pub fn message(&self) -> (r: String)
        ensures
            r@ == history_error_message(self@),
    {
        match self {
            HistoryError::MissingFile => String::from_str("expected <history_file>"),
            HistoryError::BadNumber(s) => {
                let mut m = String::from_str("could not parse number `");
                m.append(s.as_str());
                m.append("`");
                m
            },
            HistoryError::TrailingArg(s) => {
                let mut m = String::from_str("unexpected argument `");
                m.append(s.as_str());
                m.append("`");
                m
            },
            HistoryError::Exclusive => String::from_str("options -w and -a are mutually exclusive"),
            HistoryError::ReadCombined => String::from_str(
                "option -r cannot be combined with -w, -a or a count",
            ),
        }
    }
}

/// A token that parses as a count: non-empty, all digits, and fitting the
/// machine word.
pub open spec fn valid_count(s: Seq<char>) -> bool {
    s.len() > 0 && (forall|j: int| 0 <= j < s.len() ==> is_dec_digit(#[trigger] s[j])) && dec_value(
        s,
    ) <= usize::MAX as int
}

/// The walk over the arguments: each `-r`, `-w` or `-a` takes the next token
/// as a file name (a later occurrence overwriting an earlier one), any other
/// token must be the final one and parse as a count.
pub open spec fn history_walk(
    args: Seq<Seq<char>>,
    r: Option<Seq<char>>,
    w: Option<Seq<char>>,
    a: Option<Seq<char>>,
    n: Option<int>,
) -> Result<(Option<Seq<char>>, Option<Seq<char>>, Option<Seq<char>>, Option<int>), HistoryErrorView>
    decreases args.len(),
{
    if args.len() == 0 {
        Ok((r, w, a, n))
    } else {
        let t = args[0];
        if t == "-r"@ || t == "-w"@ || t == "-a"@ {
            if args.len() == 1 {
                Err(HistoryErrorView::MissingFile)
            } else {
                let f = args[1];
                if t == "-r"@ {
                    history_walk(args.skip(2), Some(f), w, a, n)
                } else if t == "-w"@ {
                    history_walk(args.skip(2), r, Some(f), a, n)
                } else {
                    history_walk(args.skip(2), r, w, Some(f), n)
                }
            }
        } else if !valid_count(t) {
            Err(HistoryErrorView::BadNumber(t))
        } else if args.len() > 1 {
            Err(HistoryErrorView::TrailingArg(args[1]))
        } else {
            history_walk(args.skip(1), r, w, a, Some(dec_value(t)))
        }
    }
}

/// What the argument vector asks of the builtin, after the combination
/// rules: `-w` and `-a` exclude each other, and `-r` stands alone.
pub open spec fn history_cmd_spec(args: Seq<Seq<char>>) -> Result<HistoryCmdView, HistoryErrorView> {
    match history_walk(args, None, None, None, None) {
        Err(e) => Err(e),
        Ok((r, w, a, n)) => {
            if w is Some && a is Some {
                Err(HistoryErrorView::Exclusive)
            } else if r is Some && (w is Some || a is Some || n is Some) {
                Err(HistoryErrorView::ReadCombined)
            } else if r is Some {
                Ok(HistoryCmdView::Read(r.unwrap()))
            } else if a is Some {
                Ok(HistoryCmdView::Append(a.unwrap()))
            } else if w is Some {
                Ok(HistoryCmdView::Write(w.unwrap(), n))
            } else {
                Ok(HistoryCmdView::Show(n))
            }
        },
    }
}

/// Parses the arguments of the `history` builtin.
pub fn parse_history_args(args: &Vec<String>) -> (res: Result<HistoryCmd, HistoryError>)
    ensures
        match res {
            Ok(cmd) => history_cmd_spec(args.deep_view()) == Ok::<HistoryCmdView, HistoryErrorView>(
                cmd@,
            ),
            Err(e) => history_cmd_spec(args.deep_view()) == Err::<
                HistoryCmdView,
                HistoryErrorView,
            >(e@),
        },
{
    proof {
        reveal_strlit("-r");
        reveal_strlit("-w");
        reveal_strlit("-a");
    }
    let ghost all = args.deep_view();
    let mut r: Option<String> = None;
    let mut w: Option<String> = None;
    let mut a: Option<String> = None;
    let mut n: Option<usize> = None;
    let mut i: usize = 0;

    proof {
        assert(all.skip(0) =~= all);
    }
    while i < args.len()
        invariant
            i <= args.len(),
            all == args.deep_view(),
            history_walk(
                all.skip(i as int),
                match r {
                    Some(ref f) => Some(f@),
                    None => None,
                },
                match w {
                    Some(ref f) => Some(f@),
                    None => None,
                },
                match a {
                    Some(ref f) => Some(f@),
                    None => None,
                },
                match n {
                    Some(v) => Some(v as int),
                    None => None,
                },
            ) == history_walk(all, None, None, None, None),
        decreases args.len() - i,
    {
        proof {
            assert(all.skip(i as int)[0] == all[i as int]);
        }
        let t = &args[i];
        let is_r = str_eq(t.as_str(), "-r");
        let is_w = str_eq(t.as_str(), "-w");
        let is_a = str_eq(t.as_str(), "-a");
        if is_r || is_w || is_a {
            if i + 1 == args.len() {
                proof {
                    assert(all.skip(i as int).len() == 1);
                }
                return Err(HistoryError::MissingFile);
            }
            proof {
                assert(all.skip(i as int)[1] == all[i as int + 1]);
                assert(all.skip(i as int).skip(2) =~= all.skip(i as int + 2));
            }
            let f = args[i + 1].clone();
            if is_r {
                r = Some(f);
            } else if is_w {
                w = Some(f);
            } else {
                a = Some(f);
            }
            i += 2;
        } else {
            match parse_usize(t.as_str()) {
                None => {
                    return Err(HistoryError::BadNumber(t.clone()));
                },
                Some(v) => {
                    if i + 1 < args.len() {
                        proof {
                            assert(all.skip(i as int)[1] == all[i as int + 1]);
                        }
                        return Err(HistoryError::TrailingArg(args[i + 1].clone()));
                    }
                    proof {
                        assert(all.skip(i as int).skip(1) =~= all.skip(i as int + 1));
                    }
                    n = Some(v);
                    i += 1;
                },
            }
        }
    }
    proof {
        assert(all.skip(args.len() as int) =~= Seq::<Seq<char>>::empty());
    }
    if w.is_some() && a.is_some() {
        return Err(HistoryError::Exclusive);
    }
    if r.is_some() && (w.is_some() || a.is_some() || n.is_some()) {
        return Err(HistoryError::ReadCombined);
    }
    if let Some(f) = r {
        return Ok(HistoryCmd::Read(f));
    }
    if let Some(f) = a {
        return Ok(HistoryCmd::Append(f));
    }
    if let Some(f) = w {
        return Ok(HistoryCmd::Write(f, n));
    }
    Ok(HistoryCmd::Show(n))
}

/// Where the numeric rule's selection starts: the last `n` entries, or all
/// of them when no count is given or the count exceeds the length.
pub open spec fn selection_start(len: int, n: Option<int>) -> int {
    match n {
        None => 0,
        Some(v) => if v > len {
            0
        } else {
            len - v
        },
    }
}

/// The lines of the listing: each selected entry as
/// `<1-based index, right-aligned to width five>  <entry>`.
pub open spec fn listing_lines(h: Seq<Seq<char>>, start: int) -> Seq<Seq<char>> {
    Seq::new((h.len() - start) as nat, |j: int| pad_left(dec_digits(start + j + 1), 5) + seq![
        ' ',
        ' ',
    ] + h[start + j])
}

/// The listing the numeric rule shows, newline-separated with a trailing
/// newline.
pub open spec fn listing_spec(h: Seq<Seq<char>>, n: Option<int>) -> Seq<char> {
    join_with(listing_lines(h, selection_start(h.len() as int, n)), seq!['\n']).push('\n')
}

/// What `-w` writes: the selected entries without the index prefix,
/// newline-separated with a trailing newline.
pub open spec fn write_content_spec(h: Seq<Seq<char>>, n: Option<int>) -> Seq<char> {
    join_with(h.skip(selection_start(h.len() as int, n)), seq!['\n']).push('\n')
}

/// What `-a` appends: the entries from the append position on,
/// newline-separated with a trailing newline.
pub open spec fn append_content_spec(h: Seq<Seq<char>>, pos: int) -> Seq<char> {
    join_with(h.skip(pos), seq!['\n']).push('\n')
}

/// The first selected index under the numeric rule.
fn selection_start_exec(len: usize, n: &Option<usize>) -> (r: usize)
    ensures
        r as int == selection_start(
            len as int,
            match n {
                Some(v) => Some(*v as int),
                None => None,
            },
        ),
{
    match n {
        None => 0,
        Some(v) => if *v > len {
            0
        } else {
            len - *v
        },
    }
}

/// Renders the listing of the selected entries.
pub fn history_listing(h: &Vec<String>, n: &Option<usize>) -> (r: String)
    ensures
        r@ == listing_spec(
            h.deep_view(),
            match n {
                Some(v) => Some(*v as int),
                None => None,
            },
        ),
{
    let ghost hv = h.deep_view();
    let ghost nv: Option<int> = match n {
        Some(v) => Some(*v as int),
        None => None,
    };
    let start = selection_start_exec(h.len(), n);
    let ghost lines_spec = listing_lines(hv, start as int);
    let mut lines: Vec<String> = Vec::new();
    let mut j: usize = start;
    proof {
        assert(lines.deep_view() =~= lines_spec.take(0));
    }
    while j < h.len()
        invariant
            start <= j <= h.len(),
            hv == h.deep_view(),
            start as int == selection_start(hv.len() as int, nv),
            lines_spec == listing_lines(hv, start as int),
            lines.deep_view() == lines_spec.take(j - start as int),
        decreases h.len() - j,
    {
        let mut line = pad_left_spaces(dec_string(j + 1), 5);
        line.append("  ");
        line.append(h[j].as_str());
        proof {
            reveal_strlit("  ");
            assert("  "@ =~= seq![' ', ' ']);
            assert(line@ == lines_spec[j - start as int]);
        }
        let ghost prev = lines.deep_view();
        lines.push(line);
        proof {
            assert(lines.deep_view() =~= prev.push(lines_spec[j - start as int]));
            assert(lines.deep_view() =~= lines_spec.take(j + 1 - start as int));
        }
        j += 1;
    }
    proof {
        assert(lines_spec.take(h.len() - start as int) =~= lines_spec);
    }
    let mut out = join_words(&lines, "\n");
    out.append("\n");
    proof {
        reveal_strlit("\n");
        assert("\n"@ =~= seq!['\n']);
        assert(out@ =~= listing_spec(hv, nv));
    }
    out
}

/// Renders what `-w` writes for the selected entries.
pub fn history_write_content(h: &Vec<String>, n: &Option<usize>) -> (r: String)
    ensures
        r@ == write_content_spec(
            h.deep_view(),
            match n {
                Some(v) => Some(*v as int),
                None => None,
            },
        ),
{
    let ghost hv = h.deep_view();
    let start = selection_start_exec(h.len(), n);
    let mut sel: Vec<String> = Vec::new();
    let mut j: usize = start;
    proof {
        assert(sel.deep_view() =~= hv.skip(start as int).take(0));
    }
    while j < h.len()
        invariant
            start <= j <= h.len(),
            hv == h.deep_view(),
            sel.deep_view() == hv.skip(start as int).take(j - start as int),
        decreases h.len() - j,
    {
        let ghost prev = sel.deep_view();
        sel.push(h[j].clone());
        proof {
            assert(hv.skip(start as int)[j - start as int] == hv[j as int]);
            assert(sel.deep_view() =~= prev.push(hv[j as int]));
            assert(sel.deep_view() =~= hv.skip(start as int).take(j + 1 - start as int));
        }
        j += 1;
    }
    proof {
        assert(hv.skip(start as int).take(h.len() - start as int) =~= hv.skip(start as int));
    }
    let mut out = join_words(&sel, "\n");
    out.append("\n");
    proof {
        reveal_strlit("\n");
        assert("\n"@ =~= seq!['\n']);
        assert(out@ =~= write_content_spec(
            hv,
            match n {
                Some(v) => Some(*v as int),
                None => None,
            },
        ));
    }
    out
}

} // verus!
