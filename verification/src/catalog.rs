//! The executable catalog: a plain-value picture of the search path, the
//! search for a command on it, the enumeration of executable basenames for
//! completion, and the resolution of a command name to a builtin, a program
//! path, or a lookup failure.

use vstd::prelude::*;
use crate::builtin::{is_builtin_name, Builtin};
use crate::text::{str_eq, trim_spaces, trim_spec};

verus! {

/// What the search-path scan sees of one regular file: its full path, its
/// basename, whether it is a regular file at all, and whether some execute
/// bit is set on it.
pub struct FileEntry {
    pub path: String,
    pub name: String,
    pub is_file: bool,
    pub executable: bool,
}

/// The mathematical shape of a `FileEntry`.
pub struct FileEntryView {
    pub path: Seq<char>,
    pub name: Seq<char>,
    pub is_file: bool,
    pub executable: bool,
}

impl View for FileEntry {
    type V = FileEntryView;

    open spec fn view(&self) -> FileEntryView {
        FileEntryView {
            path: self.path@,
            name: self.name@,
            is_file: self.is_file,
            executable: self.executable,
        }
    }
}

impl DeepView for FileEntry {
    type V = FileEntryView;

    open spec fn deep_view(&self) -> FileEntryView {
        self.view()
    }
}

/// What the scan sees of one entry of the search path: the entry itself as a
/// file, and, when it is a directory, its regular-file children one level
/// deep.
pub struct PathEntry {
    pub entry: FileEntry,
    pub is_dir: bool,
    pub children: Vec<FileEntry>,
}

/// The mathematical shape of a `PathEntry`.
pub struct PathEntryView {
    pub entry: FileEntryView,
    pub is_dir: bool,
    pub children: Seq<FileEntryView>,
}

impl View for PathEntry {
    type V = PathEntryView;

    open spec fn view(&self) -> PathEntryView {
        PathEntryView {
            entry: self.entry@,
            is_dir: self.is_dir,
            children: self.children.deep_view(),
        }
    }
}

impl DeepView for PathEntry {
    type V = PathEntryView;

    open spec fn deep_view(&self) -> PathEntryView {
        self.view()
    }
}

/// An entry that resolves the command by itself: a regular file of that
/// basename with an execute bit set.
pub open spec fn file_matches(f: FileEntryView, command: Seq<char>) -> bool {
    f.is_file && f.executable && f.name == command
}

/// The first child of a directory that resolves the command.
pub open spec fn dir_match(children: Seq<FileEntryView>, command: Seq<char>) -> Option<Seq<char>>
    decreases children.len(),
{
    if children.len() == 0 {
        None
    } else if file_matches(children[0], command) {
        Some(children[0].path)
    } else {
        dir_match(children.skip(1), command)
    }
}

/// The path of the first executable called `command` on the search path:
/// a file entry contributes itself, a directory entry its children, in
/// search-path order.
pub open spec fn search_spec(entries: Seq<PathEntryView>, command: Seq<char>) -> Option<Seq<char>>
    decreases entries.len(),
{
    if entries.len() == 0 {
        None
    } else {
        let e = entries[0];
        if e.entry.is_file && file_matches(e.entry, command) {
            Some(e.entry.path)
        } else if e.is_dir && dir_match(e.children, command) is Some {
            dir_match(e.children, command)
        } else {
            search_spec(entries.skip(1), command)
        }
    }
}

/// Looks inside one directory for the first executable child of the given
/// basename.
fn dir_search(children: &Vec<FileEntry>, command: &str) -> (r: Option<String>)
    ensures
        match r {
            Some(p) => dir_match(children.deep_view(), command@) == Some(p@),
            None => dir_match(children.deep_view(), command@) is None,
        },
{
    let ghost all = children.deep_view();
    let mut i: usize = 0;
    proof {
        assert(all.skip(0) =~= all);
    }
    while i < children.len()
        invariant
            i <= children.len(),
            all == children.deep_view(),
            dir_match(all.skip(i as int), command@) == dir_match(all, command@),
        decreases children.len() - i,
    {
        proof {
            assert(all.skip(i as int)[0] == all[i as int]);
            assert(all.skip(i as int).skip(1) =~= all.skip(i as int + 1));
        }
        let c = &children[i];
        if c.is_file && c.executable && str_eq(c.name.as_str(), command) {
            return Some(c.path.clone());
        }
        i += 1;
    }
    proof {
        assert(all.skip(children.len() as int) =~= Seq::<FileEntryView>::empty());
    }
    None
}

/// Finds the first executable called `command` on the search path, walking
/// the entries in order; a file entry matches by its own basename, a
/// directory entry by its executable regular-file children.
pub fn search(entries: &Vec<PathEntry>, command: &str) -> (r: Option<String>)
    ensures
        match r {
            Some(p) => search_spec(entries.deep_view(), command@) == Some(p@),
            None => search_spec(entries.deep_view(), command@) is None,
        },
{
    let ghost all = entries.deep_view();
    let mut i: usize = 0;
    proof {
        assert(all.skip(0) =~= all);
    }
    while i < entries.len()
        invariant
            i <= entries.len(),
            all == entries.deep_view(),
            search_spec(all.skip(i as int), command@) == search_spec(all, command@),
        decreases entries.len() - i,
    {
        proof {
            assert(all.skip(i as int)[0] == all[i as int]);
            assert(all.skip(i as int).skip(1) =~= all.skip(i as int + 1));
        }
        let e = &entries[i];
        if e.entry.is_file && e.entry.executable && str_eq(e.entry.name.as_str(), command) {
            return Some(e.entry.path.clone());
        }
        if e.is_dir {
            match dir_search(&e.children, command) {
                Some(p) => {
                    return Some(p);
                },
                None => {},
            }
        }
        i += 1;
    }
    proof {
        assert(all.skip(entries.len() as int) =~= Seq::<PathEntryView>::empty());
    }
    None
}

/// The executable basenames one directory contributes, in enumeration order.
pub open spec fn dir_names(children: Seq<FileEntryView>) -> Seq<Seq<char>>
    decreases children.len(),
{
    if children.len() == 0 {
        Seq::empty()
    } else if children[0].is_file && children[0].executable {
        seq![children[0].name] + dir_names(children.skip(1))
    } else {
        dir_names(children.skip(1))
    }
}

/// All executable basenames the search path contributes, in enumeration
/// order; duplicates are permitted.
pub open spec fn exec_names(entries: Seq<PathEntryView>) -> Seq<Seq<char>>
    decreases entries.len(),
{
    if entries.len() == 0 {
        Seq::empty()
    } else {
        let e = entries[0];
        let here = if e.entry.is_file && e.entry.executable {
            seq![e.entry.name]
        } else if e.is_dir {
            dir_names(e.children)
        } else {
            Seq::<Seq<char>>::empty()
        };
        here + exec_names(entries.skip(1))
    }
}

/// Collects the executable basenames of one directory.
fn dir_executables(children: &Vec<FileEntry>, out: &mut Vec<String>)
    ensures
        final(out).deep_view() == old(out).deep_view() + dir_names(children.deep_view()),
{
    let ghost all = children.deep_view();
    let mut i: usize = 0;
    proof {
        assert(all.skip(0) =~= all);
    }
    while i < children.len()
        invariant
            i <= children.len(),
            all == children.deep_view(),
            out.deep_view() + dir_names(all.skip(i as int)) == old(out).deep_view() + dir_names(
                all,
            ),
        decreases children.len() - i,
    {
        proof {
            assert(all.skip(i as int)[0] == all[i as int]);
            assert(all.skip(i as int).skip(1) =~= all.skip(i as int + 1));
        }
        let c = &children[i];
        if c.is_file && c.executable {
            let ghost prev = out.deep_view();
            out.push(c.name.clone());
            proof {
                assert(out.deep_view() =~= prev.push(all[i as int].name));
                assert(prev.push(all[i as int].name) + dir_names(all.skip(i as int + 1)) =~= prev
                    + (seq![all[i as int].name] + dir_names(all.skip(i as int + 1))));
            }
        }
        i += 1;
    }
    proof {
        assert(all.skip(children.len() as int) =~= Seq::<FileEntryView>::empty());
        assert(out.deep_view() + Seq::<Seq<char>>::empty() =~= out.deep_view());
    }
}

/// Enumerates every executable basename reachable from the search path, in
/// enumeration order, for completion.
pub fn executables(entries: &Vec<PathEntry>) -> (r: Vec<String>)
    ensures
        r.deep_view() == exec_names(entries.deep_view()),
{
    let ghost all = entries.deep_view();
    let mut out: Vec<String> = Vec::new();
    let mut i: usize = 0;
    proof {
        assert(all.skip(0) =~= all);
        assert(out.deep_view() =~= Seq::<Seq<char>>::empty());
    }
    while i < entries.len()
        invariant
            i <= entries.len(),
            all == entries.deep_view(),
            out.deep_view() + exec_names(all.skip(i as int)) == exec_names(all),
        decreases entries.len() - i,
    {
        proof {
            assert(all.skip(i as int)[0] == all[i as int]);
            assert(all.skip(i as int).skip(1) =~= all.skip(i as int + 1));
        }
        let e = &entries[i];
        let ghost prev = out.deep_view();
        if e.entry.is_file && e.entry.executable {
            out.push(e.entry.name.clone());
            proof {
                assert(out.deep_view() =~= prev.push(all[i as int].entry.name));
                assert(prev.push(all[i as int].entry.name) + exec_names(all.skip(i as int + 1))
                    =~= prev + (seq![all[i as int].entry.name] + exec_names(
                    all.skip(i as int + 1),
                )));
            }
        } else if e.is_dir {
            dir_executables(&e.children, &mut out);
            proof {
                assert(prev + dir_names(all[i as int].children) + exec_names(
                    all.skip(i as int + 1),
                ) =~= prev + (dir_names(all[i as int].children) + exec_names(
                    all.skip(i as int + 1),
                )));
            }
        } else {
            proof {
                assert(prev + (Seq::<Seq<char>>::empty() + exec_names(all.skip(i as int + 1)))
                    =~= prev + exec_names(all.skip(i as int + 1)));
            }
        }
        i += 1;
    }
    proof {
        assert(all.skip(entries.len() as int) =~= Seq::<PathEntryView>::empty());
        assert(out.deep_view() + Seq::<Seq<char>>::empty() =~= out.deep_view());
    }
    out
}

/// How a command name resolves: an in-process builtin, an executable found
/// on the search path, or nothing of that name.
pub enum CommandKind {
    Builtin(Builtin),
    Program(String),
    NotFound(String),
}

/// The mathematical shape of a `CommandKind`.
pub enum CommandKindView {
    Builtin(Builtin),
    Program(Seq<char>),
    NotFound(Seq<char>),
}

impl View for CommandKind {
    type V = CommandKindView;

    open spec fn view(&self) -> CommandKindView {
        match self {
            CommandKind::Builtin(b) => CommandKindView::Builtin(*b),
            CommandKind::Program(p) => CommandKindView::Program(p@),
            CommandKind::NotFound(n) => CommandKindView::NotFound(n@),
        }
    }
}

/// How the trimmed name `t` resolves against the search path: its builtin
/// when some builtin bears that name, else the first executable found, else
/// not found under the name itself.
pub open spec fn kind_resolves(
    k: CommandKindView,
    t: Seq<char>,
    entries: Seq<PathEntryView>,
) -> bool {
    match k {
        CommandKindView::Builtin(b) => crate::builtin::builtin_name_spec(b) == t,
        CommandKindView::Program(p) => !is_builtin_name(t) && search_spec(entries, t) == Some(p),
        CommandKindView::NotFound(n) => n == t && !is_builtin_name(t) && search_spec(
            entries,
            t,
        ) is None,
    }
}

impl CommandKind {
    /// Resolves a command name: after trimming, a builtin name denotes its
    /// builtin, otherwise the first executable of that name on the search
    /// path is the program, otherwise the name is not found.
    pub fn parse(command: &str, entries: &Vec<PathEntry>) -> (r: CommandKind)
        ensures
            kind_resolves(r@, trim_spec(command@), entries.deep_view()),
    {
        let trimmed = trim_spaces(command);
        match Builtin::from_name(trimmed.as_str()) {
            Some(b) => CommandKind::Builtin(b),
            None => {
                match search(entries, trimmed.as_str()) {
                    Some(p) => CommandKind::Program(p),
                    None => CommandKind::NotFound(trimmed),
                }
            },
        }
    }
}

} // verus!
