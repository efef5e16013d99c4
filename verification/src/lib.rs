use vstd::prelude::*;

pub mod text;
pub mod lsp;
pub mod config;
pub mod repl;
pub mod command_line_args;
pub mod workbench;
pub mod com_interfaces;

verus! {
}
