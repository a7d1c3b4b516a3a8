use vstd::prelude::*;

pub mod colorize;
pub mod config;
pub mod dwl_highlight;
pub mod flatten;
pub mod history;
pub mod lex;
pub mod order;
pub mod picker;
pub mod repl;
pub mod run_once;
pub mod sidecar;
pub mod span;
pub mod status;
pub mod text;
pub mod tui;
pub mod watch;

verus! {
}
