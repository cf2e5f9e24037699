//! The six builtins, the shell's mutable state, and the pure effect each
//! builtin computes: what it writes, how it changes the state, and which
//! action the host must carry out on its behalf.

use vstd::prelude::*;
use crate::catalog::{search_spec, CommandKind, PathEntry};
use crate::history::{
    append_content_spec, history_cmd_spec, history_error_message, history_listing,
    history_write_content, listing_spec, parse_history_args, write_content_spec, HistoryCmd,
    HistoryCmdView,
};
use crate::text::{join_with, join_words, str_eq, trim_spec};

verus! {

/// Whether the read-eval-print loop keeps running or terminates.
#[derive(Clone, Copy, Debug, PartialEq, Eq, Structural)]
pub enum ControlFlow {
    Repl,
    Exit,
}

/// The six in-process commands.
#[derive(Clone, Copy, Debug, PartialEq, Eq, Structural)]
pub enum Builtin {
    Exit,
    Type,
    Echo,
    Pwd,
    Cd,
    History,
}

/// The name a builtin is invoked by.
pub open spec fn builtin_name_spec(b: Builtin) -> Seq<char> {
    match b {
        Builtin::Exit => "exit"@,
        Builtin::Type => "type"@,
        Builtin::Echo => "echo"@,
        Builtin::Pwd => "pwd"@,
        Builtin::Cd => "cd"@,
        Builtin::History => "history"@,
    }
}

/// Whether some builtin is invoked by this name.
pub open spec fn is_builtin_name(s: Seq<char>) -> bool {
    exists|b: Builtin| builtin_name_spec(b) == s
}

impl Builtin {
    /// The builtin a name denotes, if any.
    pub fn from_name(name: &str) -> (r: Option<Builtin>)
        ensures
            match r {
                Some(b) => builtin_name_spec(b) == name@,
                None => !is_builtin_name(name@),
            },
    {
        if str_eq(name, "exit") {
            Some(Builtin::Exit)
        } else if str_eq(name, "type") {
            Some(Builtin::Type)
        } else if str_eq(name, "echo") {
            Some(Builtin::Echo)
        } else if str_eq(name, "pwd") {
            Some(Builtin::Pwd)
        } else if str_eq(name, "cd") {
            Some(Builtin::Cd)
        } else if str_eq(name, "history") {
            Some(Builtin::History)
        } else {
            proof {
                assert(forall|b: Builtin| builtin_name_spec(b) != name@) by {
                    assert(builtin_name_spec(Builtin::Exit) != name@);
                    assert(builtin_name_spec(Builtin::Type) != name@);
                    assert(builtin_name_spec(Builtin::Echo) != name@);
                    assert(builtin_name_spec(Builtin::Pwd) != name@);
                    assert(builtin_name_spec(Builtin::Cd) != name@);
                    assert(builtin_name_spec(Builtin::History) != name@);
                }
            }
            None
        }
    }

    /// The name of this builtin.
    pub fn name(&self) -> (r: String)
        ensures
            r@ == builtin_name_spec(*self),
    {
        match self {
            Builtin::Exit => String::from_str("exit"),
            Builtin::Type => String::from_str("type"),
            Builtin::Echo => String::from_str("echo"),
            Builtin::Pwd => String::from_str("pwd"),
            Builtin::Cd => String::from_str("cd"),
            Builtin::History => String::from_str("history"),
        }
    }

    /// The six builtin names, in their fixed order, for completion.
    pub fn all_names() -> (r: Vec<String>)
        ensures
            r.deep_view() =~= seq!["exit"@, "type"@, "echo"@, "pwd"@, "cd"@, "history"@],
    {
        let mut v: Vec<String> = Vec::new();
        v.push(String::from_str("exit"));
        v.push(String::from_str("type"));
        v.push(String::from_str("echo"));
        v.push(String::from_str("pwd"));
        v.push(String::from_str("cd"));
        v.push(String::from_str("history"));
        v
    }
}

/// The shell's long-lived state: whether the loop continues, the history of
/// accepted lines, and the boundary between history entries already
/// persisted by `history -a` and those not yet written.
pub struct State {
    pub control_flow: ControlFlow,
    pub history: Vec<String>,
    pub history_append_position: usize,
}

impl State {
    /// The append position never points past the end of the history.
    pub open spec fn wf(&self) -> bool {
        self.history_append_position <= self.history@.len()
    }

    /// A fresh state: the loop runs, no history, nothing persisted.
    pub fn new() -> (s: State)
        ensures
            s.wf(),
            s.control_flow is Repl,
            s.history@ =~= Seq::<String>::empty(),
            s.history_append_position == 0,
    {
        State { control_flow: ControlFlow::Repl, history: Vec::new(), history_append_position: 0 }
    }

    /// Records an accepted input line in the history.
    pub fn push_history(&mut self, line: String)
        requires
            old(self).wf(),
        ensures
            final(self).wf(),
            final(self).history@ == old(self).history@.push(line),
            final(self).history_append_position == old(self).history_append_position,
            final(self).control_flow == old(self).control_flow,
    {
        self.history.push(line);
    }

    /// Appends the lines read from a history file (`history -r`) to the
    /// in-memory history; the append position does not move.
    pub fn absorb_history_lines(&mut self, mut lines: Vec<String>)
        requires
            old(self).wf(),
        ensures
            final(self).wf(),
            final(self).history@ == old(self).history@ + lines@,
            final(self).history_append_position == old(self).history_append_position,
            final(self).control_flow == old(self).control_flow,
    {
        self.history.append(&mut lines);
    }

    /// Takes the not-yet-persisted slice of the history for `history -a`,
    /// newline-separated with a trailing newline, and advances the append
    /// position to the end of the history.
    pub fn history_append_flush(&mut self) -> (content: String)
        requires
            old(self).wf(),
        ensures
            final(self).wf(),
            content@ == append_content_spec(
                old(self).history.deep_view(),
                old(self).history_append_position as int,
            ),
            final(self).history@ == old(self).history@,
            final(self).history_append_position == final(self).history@.len(),
            final(self).control_flow == old(self).control_flow,
    {
        let ghost hv = self.history.deep_view();
        let pos = self.history_append_position;
        let mut sel: Vec<String> = Vec::new();
        let mut j: usize = pos;
        proof {
            assert(sel.deep_view() =~= hv.skip(pos as int).take(0));
        }
        while j < self.history.len()
            invariant
                pos <= j <= self.history.len(),
                hv == self.history.deep_view(),
                sel.deep_view() == hv.skip(pos as int).take(j - pos as int),
            decreases self.history.len() - j,
        {
            let ghost prev = sel.deep_view();
            sel.push(self.history[j].clone());
            proof {
                assert(hv.skip(pos as int)[j - pos as int] == hv[j as int]);
                assert(sel.deep_view() =~= prev.push(hv[j as int]));
                assert(sel.deep_view() =~= hv.skip(pos as int).take(j + 1 - pos as int));
            }
            j += 1;
        }
        proof {
            assert(hv.skip(pos as int).take(self.history.len() - pos as int) =~= hv.skip(
                pos as int,
            ));
        }
        let mut out = join_words(&sel, "\n");
        out.append("\n");
        proof {
            reveal_strlit("\n");
            assert("\n"@ =~= seq!['\n']);
            assert(out@ =~= append_content_spec(hv, pos as int));
        }
        self.history_append_position = self.history.len();
        out
    }
}

/// An action only the host process can carry out on a builtin's behalf.
pub enum HostAction {
    /// Change the working directory to the given target.
    ChangeDir(String),
    /// Write the content to the file, truncating or appending.
    WriteFile { path: String, content: String, append: bool },
    /// Read the file line by line and feed the lines back through
    /// `State::absorb_history_lines`.
    ReadHistory(String),
}

/// The mathematical shape of a `HostAction`.
pub enum HostActionView {
    ChangeDir(Seq<char>),
    WriteFile { path: Seq<char>, content: Seq<char>, append: bool },
    ReadHistory(Seq<char>),
}

impl View for HostAction {
    type V = HostActionView;

    open spec fn view(&self) -> HostActionView {
        match self {
            HostAction::ChangeDir(p) => HostActionView::ChangeDir(p@),
            HostAction::WriteFile { path, content, append } => HostActionView::WriteFile {
                path: path@,
                content: content@,
                append: *append,
            },
            HostAction::ReadHistory(p) => HostActionView::ReadHistory(p@),
        }
    }
}

/// What one run of a builtin produced: text for its stdout sink, text for
/// its stderr sink, and at most one action for the host.
pub struct BuiltinEffect {
    pub out: String,
    pub err: String,
    pub action: Option<HostAction>,
}

impl BuiltinEffect {
    /// No output and no action.
    pub open spec fn quiet(&self) -> bool {
        self.out@ == Seq::<char>::empty() && self.err@ == Seq::<char>::empty()
            && self.action is None
    }

    fn empty() -> (e: BuiltinEffect)
        ensures
            e.quiet(),
    {
        BuiltinEffect { out: String::new(), err: String::new(), action: None }
    }
}

/// The home directory substituted for every `~` of the path.
pub open spec fn substitute_home(s: Seq<char>, home: Seq<char>) -> Seq<char>
    decreases s.len(),
{
    if s.len() == 0 {
        Seq::empty()
    } else if s[0] == '~' {
        home + substitute_home(s.skip(1), home)
    } else {
        seq![s[0]] + substitute_home(s.skip(1), home)
    }
}

/// The target `cd` moves to: its argument, or `~` when none is given, with
/// every `~` replaced by the home directory.
pub open spec fn cd_target_spec(args: Seq<Seq<char>>, home: Seq<char>) -> Seq<char> {
    if args.len() == 0 {
        substitute_home(seq!['~'], home)
    } else {
        substitute_home(args[0], home)
    }
}

/// Substitutes the home directory for every `~` of the path.
fn substitute_home_exec(s: &str, home: &str) -> (r: String)
    ensures
        r@ == substitute_home(s@, home@),
{
    let n = s.unicode_len();
    let mut out = String::new();
    let mut i: usize = 0;
    proof {
        assert(s@.skip(0) =~= s@);
    }
    while i < n
        invariant
            i <= n,
            n == s@.len(),
            out@ + substitute_home(s@.skip(i as int), home@) == substitute_home(s@, home@),
        decreases n - i,
    {
        proof {
            assert(s@.skip(i as int)[0] == s@[i as int]);
            assert(s@.skip(i as int).skip(1) =~= s@.skip(i as int + 1));
        }
        let c = s.get_char(i);
        if c == '~' {
            out.append(home);
            proof {
                assert(out@ + substitute_home(s@.skip(i as int + 1), home@) =~= substitute_home(
                    s@,
                    home@,
                ));
            }
        } else {
            let mut one: Vec<char> = Vec::new();
            one.push(c);
            let piece = crate::text::chars_to_string(&one);
            out.append(piece.as_str());
            proof {
                assert(one@ =~= seq![c]);
                assert(out@ + substitute_home(s@.skip(i as int + 1), home@) =~= substitute_home(
                    s@,
                    home@,
                ));
            }
        }
        i += 1;
    }
    proof {
        assert(s@.skip(n as int) =~= Seq::<char>::empty());
        assert(out@ + Seq::<char>::empty() =~= out@);
    }
    out
}

/// The message `cd` prints when the host cannot move to the target.
pub fn cd_error_message(path: &str) -> (r: String)
    ensures
        r@ == path@ + ": No such file or directory\n"@,
{
    let mut m = String::from_str(path);
    m.append(": No such file or directory\n");
    m
}

/// The stdout text `type` produces: for each name, in order, the builtin
/// notice or the resolved path.
pub open spec fn type_out_spec(args: Seq<Seq<char>>, entries: Seq<crate::catalog::PathEntryView>) -> Seq<
    char,
>
    decreases args.len(),
{
    if args.len() == 0 {
        Seq::empty()
    } else {
        let t = trim_spec(args[0]);
        let line: Seq<char> = if is_builtin_name(t) {
            t + " is a shell builtin\n"@
        } else {
            match search_spec(entries, t) {
                Some(p) => p.push('\n'),
                None => Seq::empty(),
            }
        };
        line + type_out_spec(args.skip(1), entries)
    }
}

/// The stderr text `type` produces: a not-found line for each unresolved
/// name, in order.
pub open spec fn type_err_spec(args: Seq<Seq<char>>, entries: Seq<crate::catalog::PathEntryView>) -> Seq<
    char,
>
    decreases args.len(),
{
    if args.len() == 0 {
        Seq::empty()
    } else {
        let t = trim_spec(args[0]);
        let line: Seq<char> = if !is_builtin_name(t) && search_spec(entries, t) is None {
            t + ": not found\n"@
        } else {
            Seq::empty()
        };
        line + type_err_spec(args.skip(1), entries)
    }
}

impl Builtin {
    /// Runs the builtin over plain values: mutates the shell state, and
    /// returns the text for its stdout and stderr sinks together with the
    /// action, if any, the host must carry out. `exit` flips the control
    /// flow; `echo` joins its arguments; `type` resolves each name; `pwd`
    /// echoes the given working directory; `cd` asks the host to move to the
    /// `~`-substituted target; `history` shows, reads, writes or appends.
    pub fn run(
        &self,
        state: &mut State,
        args: &Vec<String>,
        cwd: &str,
        home: &Option<String>,
        entries: &Vec<PathEntry>,
    ) -> (eff: BuiltinEffect)
        requires
            old(state).wf(),
        ensures
            final(state).wf(),
            match self {
                Builtin::Exit => final(state).control_flow is Exit && final(state).history@ == old(
                    state,
                ).history@ && final(state).history_append_position == old(
                    state,
                ).history_append_position && eff.quiet(),
                Builtin::Echo => *final(state) == *old(state) && eff.out@ == join_with(
                    args.deep_view(),
                    seq![' '],
                ).push('\n') && eff.err@ == Seq::<char>::empty() && eff.action is None,
                Builtin::Pwd => *final(state) == *old(state) && eff.out@ == cwd@.push('\n')
                    && eff.err@ == Seq::<char>::empty() && eff.action is None,
                Builtin::Type => *final(state) == *old(state) && eff.out@ == type_out_spec(
                    args.deep_view(),
                    entries.deep_view(),
                ) && eff.err@ == type_err_spec(args.deep_view(), entries.deep_view())
                    && eff.action is None,
                Builtin::Cd => *final(state) == *old(state) && match home {
                    None => eff.err@ == "cd: environment variable not found\n"@ && eff.out@
                        == Seq::<char>::empty() && eff.action is None,
                    Some(h) => eff.out@ == Seq::<char>::empty() && eff.err@ == Seq::<
                        char,
                    >::empty() && match eff.action {
                        Some(HostAction::ChangeDir(p)) => p@ == cd_target_spec(
                            args.deep_view(),
                            h@,
                        ),
                        _ => false,
                    },
                },
                Builtin::History => match history_cmd_spec(args.deep_view()) {
                    Err(e) => *final(state) == *old(state) && eff.out@ == Seq::<char>::empty()
                        && eff.err@ == "history: "@ + history_error_message(e) + "\n"@
                        && eff.action is None,
                    Ok(cmd) => match cmd {
                        HistoryCmdView::Show(n) => *final(state) == *old(state) && eff.out@
                            == listing_spec(old(state).history.deep_view(), n) && eff.err@
                            == Seq::<char>::empty() && eff.action is None,
                        HistoryCmdView::Read(f) => *final(state) == *old(state) && eff.out@
                            == Seq::<char>::empty() && eff.err@ == Seq::<char>::empty()
                            && match eff.action {
                            Some(HostAction::ReadHistory(p)) => p@ == f,
                            _ => false,
                        },
                        HistoryCmdView::Write(f, n) => *final(state) == *old(state) && eff.out@
                            == Seq::<char>::empty() && eff.err@ == Seq::<char>::empty()
                            && match eff.action {
                            Some(
                                HostAction::WriteFile { path, content, append },
                            ) => path@ == f && content@ == write_content_spec(
                                old(state).history.deep_view(),
                                n,
                            ) && append == false,
                            _ => false,
                        },
                        HistoryCmdView::Append(f) => final(state).history@ == old(state).history@
                            && final(state).history_append_position == final(state).history@.len()
                            && final(state).control_flow == old(state).control_flow
                            && eff.out@ == Seq::<char>::empty() && eff.err@ == Seq::<
                            char,
                        >::empty() && match eff.action {
                            Some(
                                HostAction::WriteFile { path, content, append },
                            ) => path@ == f && content@ == append_content_spec(
                                old(state).history.deep_view(),
                                old(state).history_append_position as int,
                            ) && append == true,
                            _ => false,
                        },
                    },
                },
            },
    {
        match self {
            Builtin::Exit => {
                state.control_flow = ControlFlow::Exit;
                BuiltinEffect::empty()
            },
            Builtin::Echo => {
                let mut out = join_words(args, " ");
                out.append("\n");
                proof {
                    reveal_strlit(" ");
                    reveal_strlit("\n");
                    assert(" "@ =~= seq![' ']);
                    assert(out@ =~= join_with(args.deep_view(), seq![' ']).push('\n'));
                }
                BuiltinEffect { out, err: String::new(), action: None }
            },
            Builtin::Pwd => {
                let mut out = String::from_str(cwd);
                out.append("\n");
                proof {
                    reveal_strlit("\n");
                    assert(out@ =~= cwd@.push('\n'));
                }
                BuiltinEffect { out, err: String::new(), action: None }
            },
            Builtin::Type => {
                let (out, err) = type_messages(args, entries);
                BuiltinEffect { out, err, action: None }
            },
            Builtin::Cd => {
                match home {
                    None => {
                        BuiltinEffect {
                            out: String::new(),
                            err: String::from_str("cd: environment variable not found\n"),
                            action: None,
                        }
                    },
                    Some(h) => {
                        let target = if args.len() > 0 {
                            substitute_home_exec(args[0].as_str(), h.as_str())
                        } else {
                            let t = substitute_home_exec("~", h.as_str());
                            proof {
                                reveal_strlit("~");
                                assert("~"@ =~= seq!['~']);
                            }
                            t
                        };
                        BuiltinEffect {
                            out: String::new(),
                            err: String::new(),
                            action: Some(HostAction::ChangeDir(target)),
                        }
                    },
                }
            },
            Builtin::History => {
                match parse_history_args(args) {
                    Err(e) => {
                        let mut err = String::from_str("history: ");
                        err.append(e.message().as_str());
                        err.append("\n");
                        BuiltinEffect { out: String::new(), err, action: None }
                    },
                    Ok(HistoryCmd::Show(n)) => {
                        let out = history_listing(&state.history, &n);
                        BuiltinEffect { out, err: String::new(), action: None }
                    },
                    Ok(HistoryCmd::Read(f)) => {
                        BuiltinEffect {
                            out: String::new(),
                            err: String::new(),
                            action: Some(HostAction::ReadHistory(f)),
                        }
                    },
                    Ok(HistoryCmd::Write(f, n)) => {
                        let content = history_write_content(&state.history, &n);
                        BuiltinEffect {
                            out: String::new(),
                            err: String::new(),
                            action: Some(
                                HostAction::WriteFile { path: f, content, append: false },
                            ),
                        }
                    },
                    Ok(HistoryCmd::Append(f)) => {
                        let content = state.history_append_flush();
                        BuiltinEffect {
                            out: String::new(),
                            err: String::new(),
                            action: Some(HostAction::WriteFile { path: f, content, append: true }),
                        }
                    },
                }
            },
        }
    }
}

/// Resolves each name `type` was given and renders the stdout and stderr
/// texts.
fn type_messages(args: &Vec<String>, entries: &Vec<PathEntry>) -> (r: (String, String))
    ensures
        r.0@ == type_out_spec(args.deep_view(), entries.deep_view()),
        r.1@ == type_err_spec(args.deep_view(), entries.deep_view()),
{
    let ghost av = args.deep_view();
    let ghost ev = entries.deep_view();
    let mut out = String::new();
    let mut err = String::new();
    let mut i: usize = 0;
    proof {
        assert(av.skip(0) =~= av);
    }
    while i < args.len()
        invariant
            i <= args.len(),
            av == args.deep_view(),
            ev == entries.deep_view(),
            out@ + type_out_spec(av.skip(i as int), ev) == type_out_spec(av, ev),
            err@ + type_err_spec(av.skip(i as int), ev) == type_err_spec(av, ev),
        decreases args.len() - i,
    {
        proof {
            assert(av.skip(i as int)[0] == av[i as int]);
            assert(av.skip(i as int).skip(1) =~= av.skip(i as int + 1));
        }
        match CommandKind::parse(args[i].as_str(), entries) {
            CommandKind::Builtin(b) => {
                out.append(b.name().as_str());
                out.append(" is a shell builtin\n");
                proof {
                    assert(out@ + type_out_spec(av.skip(i as int + 1), ev) =~= type_out_spec(
                        av,
                        ev,
                    ));
                    assert(err@ + type_err_spec(av.skip(i as int + 1), ev) =~= type_err_spec(
                        av,
                        ev,
                    ));
                }
            },
            CommandKind::Program(p) => {
                out.append(p.as_str());
                out.append("\n");
                proof {
                    reveal_strlit("\n");
                    assert(out@ + type_out_spec(av.skip(i as int + 1), ev) =~= type_out_spec(
                        av,
                        ev,
                    ));
                    assert(err@ + type_err_spec(av.skip(i as int + 1), ev) =~= type_err_spec(
                        av,
                        ev,
                    ));
                }
            },
            CommandKind::NotFound(n) => {
                err.append(n.as_str());
                err.append(": not found\n");
                proof {
                    assert(out@ + type_out_spec(av.skip(i as int + 1), ev) =~= type_out_spec(
                        av,
                        ev,
                    ));
                    assert(err@ + type_err_spec(av.skip(i as int + 1), ev) =~= type_err_spec(
                        av,
                        ev,
                    ));
                }
            },
        }
        i += 1;
    }
    proof {
        assert(av.skip(args.len() as int) =~= Seq::<Seq<char>>::empty());
        assert(out@ + Seq::<char>::empty() =~= out@);
        assert(err@ + Seq::<char>::empty() =~= err@);
    }
    (out, err)
}

} // verus!
