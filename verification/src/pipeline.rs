//! The pipeline planner: splits an input line on `|`, tokenises each
//! segment, strips its redirections, resolves its command, and wires the
//! stages together — the stdout of every non-last segment becomes the write
//! end of a fresh pipe (overriding any file redirection there), and each
//! stage reads the pipe of the stage before it.

use vstd::prelude::*;
use crate::catalog::{kind_resolves, CommandKind, PathEntry, PathEntryView};
use crate::redirect::{parse_redirections, redir_spec, Sink, SinkView};
use crate::split::{split, split_spec, ParseError};
use crate::text::{chars_to_string, trim_spec};

verus! {

/// The input line cut at every literal `|`, the cut characters dropped;
/// adjacent, leading and trailing pipes give empty segments.
pub open spec fn segs_rec(s: Seq<char>, cur: Seq<char>) -> Seq<Seq<char>>
    decreases s.len(),
{
    if s.len() == 0 {
        seq![cur]
    } else if s[0] == '|' {
        seq![cur] + segs_rec(s.skip(1), Seq::empty())
    } else {
        segs_rec(s.skip(1), cur.push(s[0]))
    }
}

/// The segments of an input line between its pipe characters.
pub open spec fn pipe_segments(s: Seq<char>) -> Seq<Seq<char>> {
    segs_rec(s, Seq::empty())
}

/// Cuts the line at every literal `|`.
pub fn split_pipes(line: &str) -> (r: Vec<String>)
    ensures
        r.deep_view() == pipe_segments(line@),
{
    let n = line.unicode_len();
    let mut out: Vec<String> = Vec::new();
    let mut cur: Vec<char> = Vec::new();
    let mut i: usize = 0;
    proof {
        assert(line@.skip(0) =~= line@);
        assert(out.deep_view() =~= Seq::<Seq<char>>::empty());
        assert(Seq::<Seq<char>>::empty() + segs_rec(line@, Seq::empty()) =~= segs_rec(
            line@,
            Seq::empty(),
        ));
    }
    while i < n
        invariant
            i <= n,
            n == line@.len(),
            out.deep_view() + segs_rec(line@.skip(i as int), cur@) == pipe_segments(line@),
        decreases n - i,
    {
        proof {
            assert(line@.skip(i as int)[0] == line@[i as int]);
            assert(line@.skip(i as int).skip(1) =~= line@.skip(i as int + 1));
        }
        let c = line.get_char(i);
        if c == '|' {
            let ghost prev = out.deep_view();
            let ghost curv = cur@;
            out.push(chars_to_string(&cur));
            cur.clear();
            proof {
                assert(out.deep_view() =~= prev.push(curv));
                assert(prev.push(curv) + segs_rec(line@.skip(i as int + 1), Seq::empty()) =~= prev
                    + (seq![curv] + segs_rec(line@.skip(i as int + 1), Seq::empty())));
            }
        } else {
            cur.push(c);
        }
        i += 1;
    }
    proof {
        assert(line@.skip(n as int) =~= Seq::<char>::empty());
    }
    let ghost prev = out.deep_view();
    let ghost curv = cur@;
    out.push(chars_to_string(&cur));
    proof {
        assert(out.deep_view() =~= prev.push(curv));
        assert(prev.push(curv) =~= prev + seq![curv]);
    }
    out
}

/// The planned shape of one stage: the words of its segment, the residual
/// arguments, its two sinks, and the pipe its stdin reads, if any.
pub struct StageDesc {
    pub words: Seq<Seq<char>>,
    pub args: Seq<Seq<char>>,
    pub out: SinkView,
    pub err: SinkView,
    pub stdin_pipe: Option<int>,
}

/// The walk over the segments: a segment that fails to tokenise or whose
/// redirections are malformed fails the whole plan; a segment with no words
/// is skipped; every other segment becomes a stage, reading the pipe of the
/// stage before it, and — unless its segment is the last — writing a fresh
/// pipe, whatever file redirection it asked for.
pub open spec fn plan_rec(segs: Seq<Seq<char>>, prev: Option<int>, npipes: int) -> Option<
    (Seq<StageDesc>, int),
>
    decreases segs.len(),
{
    if segs.len() == 0 {
        Some((Seq::empty(), npipes))
    } else {
        match split_spec(segs[0]) {
            None => None,
            Some(ws) => {
                if ws.len() == 0 {
                    plan_rec(segs.skip(1), prev, npipes)
                } else {
                    match redir_spec(ws.skip(1)) {
                        None => None,
                        Some(parsed) => {
                            let last = segs.len() == 1;
                            let stage = StageDesc {
                                words: ws,
                                args: parsed.0,
                                out: if last {
                                    parsed.1
                                } else {
                                    SinkView::Pipe(npipes)
                                },
                                err: parsed.2,
                                stdin_pipe: prev,
                            };
                            let prev2 = if last {
                                prev
                            } else {
                                Some(npipes)
                            };
                            let np2 = if last {
                                npipes
                            } else {
                                npipes + 1
                            };
                            match plan_rec(segs.skip(1), prev2, np2) {
                                None => None,
                                Some(rest) => Some((seq![stage] + rest.0, rest.1)),
                            }
                        },
                    }
                }
            },
        }
    }
}

/// The full plan of an input line: its stages and the number of pipes.
pub open spec fn plan_spec(line: Seq<char>) -> Option<(Seq<StageDesc>, int)> {
    plan_rec(pipe_segments(line), None, 0)
}

/// Already-planned stages glued before the remainder of a walk.
pub open spec fn extend_plan(done: Seq<StageDesc>, rest: Option<(Seq<StageDesc>, int)>) -> Option<
    (Seq<StageDesc>, int),
> {
    match rest {
        None => None,
        Some(r) => Some((done + r.0, r.1)),
    }
}

/// One stage ready to launch: the command word, the residual arguments, how
/// the word resolved, the two sinks, and the pipe its stdin reads.
pub struct Stage {
    pub name: String,
    pub args: Vec<String>,
    pub kind: CommandKind,
    pub stdout: Sink,
    pub stderr: Sink,
    pub stdin_pipe: Option<usize>,
}

/// A pipe index as the plan's mathematical shape carries it.
pub open spec fn opt_pipe_view(p: Option<usize>) -> Option<int> {
    match p {
        Some(v) => Some(v as int),
        None => None,
    }
}

/// A launched stage agrees with its planned shape, and its command word
/// resolved against the search path.
pub open spec fn stage_matches(st: Stage, d: StageDesc, entries: Seq<PathEntryView>) -> bool {
    &&& d.words.len() > 0
    &&& st.name@ == d.words[0]
    &&& st.args.deep_view() == d.args
    &&& st.stdout@ == d.out
    &&& st.stderr@ == d.err
    &&& opt_pipe_view(st.stdin_pipe) == d.stdin_pipe
    &&& kind_resolves(st.kind@, trim_spec(d.words[0]), entries)
}

/// A planned pipeline: its stages in order and the number of pipes they
/// share.
pub struct Plan {
    pub stages: Vec<Stage>,
    pub pipe_count: usize,
}

/// Plans an input line: cuts it on `|`, tokenises each segment, strips each
/// segment's redirections, resolves each command word, and wires stdout of
/// every non-last segment to a fresh pipe that the following stage reads.
/// Fails exactly when some segment ends inside a quote or leaves a
/// redirection operator without a file name.
pub fn plan_pipeline(line: &str, entries: &Vec<PathEntry>) -> (r: Result<Plan, ParseError>)
    ensures
        match r {
            Ok(plan) => {
                &&& plan_spec(line@) is Some
                &&& plan.stages@.len() == plan_spec(line@).unwrap().0.len()
                &&& plan.pipe_count as int == plan_spec(line@).unwrap().1
                &&& forall|k: int|
                    0 <= k < plan.stages@.len() ==> stage_matches(
                        #[trigger] plan.stages@[k],
                        plan_spec(line@).unwrap().0[k],
                        entries.deep_view(),
                    )
            },
            Err(_) => plan_spec(line@) is None,
        },
{
    let segs = split_pipes(line);
    let ghost segsv = segs.deep_view();
    let ghost ev = entries.deep_view();
    let mut stages: Vec<Stage> = Vec::new();
    let ghost mut descs: Seq<StageDesc> = Seq::empty();
    let mut prev: Option<usize> = None;
    let mut npipes: usize = 0;
    let mut i: usize = 0;

    proof {
        assert(segsv.skip(0) =~= segsv);
        assert(extend_plan(descs, plan_rec(segsv, None, 0)) == plan_spec(line@)) by {
            match plan_rec(segsv, None, 0) {
                None => {},
                Some(rest) => {
                    assert(Seq::<StageDesc>::empty() + rest.0 =~= rest.0);
                },
            }
        }
    }
    while i < segs.len()
        invariant
            i <= segs.len(),
            segsv == segs.deep_view(),
            segsv == pipe_segments(line@),
            ev == entries.deep_view(),
            npipes <= i,
            extend_plan(descs, plan_rec(segsv.skip(i as int), opt_pipe_view(prev), npipes as int))
                == plan_spec(line@),
            stages@.len() == descs.len(),
            forall|k: int|
                0 <= k < descs.len() ==> stage_matches(#[trigger] stages@[k], descs[k], ev),
        decreases segs.len() - i,
    {
        proof {
            assert(segsv.skip(i as int)[0] == segsv[i as int]);
            assert(segsv.skip(i as int).skip(1) =~= segsv.skip(i as int + 1));
        }
        match split(segs[i].as_str()) {
            Err(e) => {
                return Err(e);
            },
            Ok(mut words) => {
                let ghost ws = words.deep_view();
                if words.len() == 0 {
                    i += 1;
                } else {
                    let name = words.remove(0);
                    proof {
                        assert(words.deep_view() =~= ws.skip(1));
                        assert(name@ == ws[0]);
                    }
                    match parse_redirections(&words) {
                        Err(e) => {
                            return Err(e);
                        },
                        Ok((res, out, err)) => {
                            let kind = CommandKind::parse(name.as_str(), entries);
                            let is_last = i + 1 == segs.len();
                            let stdout_sink = if is_last {
                                out
                            } else {
                                Sink::Pipe(npipes)
                            };
                            let ghost d = StageDesc {
                                words: ws,
                                args: res.deep_view(),
                                out: stdout_sink@,
                                err: err@,
                                stdin_pipe: opt_pipe_view(prev),
                            };
                            let stage = Stage {
                                name,
                                args: res,
                                kind,
                                stdout: stdout_sink,
                                stderr: err,
                                stdin_pipe: prev,
                            };
                            stages.push(stage);
                            proof {
                                let ghost prev_descs = descs;
                                descs = descs.push(d);
                                assert(stage_matches(stages@[descs.len() - 1], d, ev));
                                assert(forall|k: int|
                                    0 <= k < descs.len() ==> stage_matches(
                                        #[trigger] stages@[k],
                                        descs[k],
                                        ev,
                                    ));
                                match plan_rec(
                                    segsv.skip(i as int + 1),
                                    if is_last {
                                        opt_pipe_view(prev)
                                    } else {
                                        Some(npipes as int)
                                    },
                                    if is_last {
                                        npipes as int
                                    } else {
                                        npipes as int + 1
                                    },
                                ) {
                                    None => {},
                                    Some(rest) => {
                                        assert(prev_descs + (seq![d] + rest.0) =~= descs + rest.0);
                                    },
                                }
                            }
                            if !is_last {
                                prev = Some(npipes);
                                npipes += 1;
                            }
                            i += 1;
                        },
                    }
                }
            },
        }
    }
    proof {
        assert(segsv.skip(segs.len() as int) =~= Seq::<Seq<char>>::empty());
        assert(descs + Seq::<StageDesc>::empty() =~= descs);
    }
    Ok(Plan { stages, pipe_count: npipes })
}

/// A sink's pipe index, if it is a pipe.
pub open spec fn sink_pipe(s: SinkView) -> Option<int> {
    match s {
        SinkView::Pipe(p) => Some(p),
        _ => None,
    }
}

/// In any successful walk, the first stage reads what the walk was handed,
/// and every later stage reads exactly the pipe the stage before it writes.
proof fn lemma_plan_rec_chain(segs: Seq<Seq<char>>, prev: Option<int>, npipes: int)
    requires
        plan_rec(segs, prev, npipes) is Some,
    ensures
        ({
            let descs = plan_rec(segs, prev, npipes).unwrap().0;
            &&& (descs.len() > 0 ==> descs[0].stdin_pipe == prev)
            &&& forall|k: int|
                1 <= k < descs.len() ==> (#[trigger] descs[k].stdin_pipe) == sink_pipe(
                    descs[k - 1].out,
                ) && descs[k - 1].out is Pipe
        }),
    decreases segs.len(),
{
    if segs.len() > 0 {
        match split_spec(segs[0]) {
            None => {},
            Some(ws) => {
                if ws.len() == 0 {
                    lemma_plan_rec_chain(segs.skip(1), prev, npipes);
                } else {
                    let last = segs.len() == 1;
                    let prev2 = if last {
                        prev
                    } else {
                        Some(npipes)
                    };
                    let np2 = if last {
                        npipes
                    } else {
                        npipes + 1
                    };
                    lemma_plan_rec_chain(segs.skip(1), prev2, np2);
                    let descs = plan_rec(segs, prev, npipes).unwrap().0;
                    let rest = plan_rec(segs.skip(1), prev2, np2).unwrap().0;
                    assert(forall|k: int| 1 <= k < descs.len() ==> descs[k] == rest[k - 1]);
                    if rest.len() > 0 {
                        assert(rest[0].stdin_pipe == prev2);
                        assert(!last) by {
                            if last {
                                assert(segs.skip(1) =~= Seq::<Seq<char>>::empty());
                            }
                        }
                        assert(descs[0].out == SinkView::Pipe(npipes));
                    }
                }
            },
        }
    }
}

/// When every segment of the walk holds a command, the walk yields one stage
/// per segment, numbers their pipes consecutively, and creates one pipe
/// fewer than there are stages.
proof fn lemma_plan_rec_counts(segs: Seq<Seq<char>>, prev: Option<int>, npipes: int)
    requires
        plan_rec(segs, prev, npipes) is Some,
        forall|j: int|
            0 <= j < segs.len() ==> (#[trigger] split_spec(segs[j])) is Some && split_spec(
                segs[j],
            ).unwrap().len() > 0,
    ensures
        ({
            let r = plan_rec(segs, prev, npipes).unwrap();
            &&& r.0.len() == segs.len()
            &&& r.1 == if segs.len() == 0 {
                npipes
            } else {
                npipes + segs.len() - 1
            }
            &&& forall|k: int|
                0 <= k < segs.len() ==> (#[trigger] r.0[k].stdin_pipe) == (if k == 0 {
                    prev
                } else {
                    Some(npipes + k - 1)
                })
            &&& forall|k: int|
                0 <= k < segs.len() - 1 ==> (#[trigger] r.0[k].out) == SinkView::Pipe(npipes + k)
        }),
    decreases segs.len(),
{
    if segs.len() > 0 {
        let ws = split_spec(segs[0]).unwrap();
        let last = segs.len() == 1;
        let prev2 = if last {
            prev
        } else {
            Some(npipes)
        };
        let np2 = if last {
            npipes
        } else {
            npipes + 1
        };
        assert(forall|j: int|
            0 <= j < segs.skip(1).len() ==> #[trigger] segs.skip(1)[j] == segs[j + 1]);
        lemma_plan_rec_counts(segs.skip(1), prev2, np2);
        let r = plan_rec(segs, prev, npipes).unwrap();
        let rest = plan_rec(segs.skip(1), prev2, np2).unwrap();
        assert(forall|k: int| 1 <= k < r.0.len() ==> r.0[k] == rest.0[k - 1]);
    }
}

/// In every successful plan, however many segments were empty, the first
/// stage inherits its stdin and every later stage reads exactly the pipe the
/// stage before it writes — which is a pipe, whatever file redirection that
/// stage asked for.
pub proof fn lemma_pipeline_chain(line: Seq<char>)
    requires
        plan_spec(line) is Some,
    ensures
        ({
            let descs = plan_spec(line).unwrap().0;
            &&& (descs.len() > 0 ==> descs[0].stdin_pipe is None)
            &&& forall|k: int|
                1 <= k < descs.len() ==> (#[trigger] descs[k].stdin_pipe) == sink_pipe(
                    descs[k - 1].out,
                ) && descs[k - 1].out is Pipe
        }),
{
    lemma_plan_rec_chain(pipe_segments(line), None, 0);
}

/// A pipeline of k stages — one per segment, each segment holding a command
/// — creates exactly k−1 pipes; stage 0 inherits its stdin, stage i reads
/// pipe i−1, and every stage but the last writes pipe i, whatever file
/// redirection its segment asked for.
pub proof fn lemma_pipeline_wiring(line: Seq<char>)
    requires
        plan_spec(line) is Some,
        forall|j: int|
            0 <= j < pipe_segments(line).len() ==> (#[trigger] split_spec(
                pipe_segments(line)[j],
            )) is Some && split_spec(pipe_segments(line)[j]).unwrap().len() > 0,
    ensures
        ({
            let r = plan_spec(line).unwrap();
            let k = pipe_segments(line).len() as int;
            &&& r.0.len() == k
            &&& r.1 == if k == 0 {
                0int
            } else {
                k - 1
            }
            &&& (k > 0 ==> r.0[0].stdin_pipe is None)
            &&& forall|i: int| 1 <= i < k ==> (#[trigger] r.0[i].stdin_pipe) == Some(i - 1)
            &&& forall|i: int| 0 <= i < k - 1 ==> (#[trigger] r.0[i].out) == SinkView::Pipe(i)
        }),
{
    lemma_plan_rec_counts(pipe_segments(line), None, 0);
}

/// The line printed when a command resolves to nothing.
pub fn not_found_message(name: &str) -> (r: String)
    ensures
        r@ == name@ + ": command not found\n"@,
{
    let mut m = String::from_str(name);
    m.append(": command not found\n");
    m
}

} // verus!
