//! Core logic of an interactive POSIX-flavoured shell: word splitting with
//! quoting, redirection parsing, pipeline planning, command resolution,
//! line editing with tab completion, builtins, and history bookkeeping.
//!
//! Everything here is pure: terminal handling, the filesystem and process
//! spawning live in the surrounding binary, which feeds this library plain
//! values and carries out the actions it decides on.

pub mod builtin;
pub mod catalog;
pub mod completion;
pub mod editor;
pub mod history;
pub mod key;
pub mod pipeline;
pub mod redirect;
pub mod split;
pub mod text;

pub use builtin::{Builtin, ControlFlow, State};
pub use catalog::{executables, search, CommandKind, FileEntry, PathEntry};
pub use editor::Editor;
pub use key::Key;
pub use pipeline::{plan_pipeline, Plan, Stage};
pub use redirect::{parse_redirections, Sink};
pub use split::{split, ParseError};
pub use text::join_words;
