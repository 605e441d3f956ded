//! Building blocks for programs that sit close to their host: processes, files and
//! their protection, profiles and symbols, syntax, databases and webviews.
//!
//! What a program decides stands here, as functions from plain values to plain
//! values. Talking to the host is left to the caller, which does what it is told
//! and hands back what came of it.
use vstd::prelude::*;

pub mod drain;
pub mod host;
pub mod linux;
pub mod numbers;
pub mod paths;
pub mod process_adapter;
pub mod profile;
pub mod pty;
pub mod runtime;
pub mod snapshot;
pub mod source;
pub mod sqlite;
pub mod strings;
pub mod symbolize;
pub mod tauri;
pub mod terminal_style;
pub mod text;
pub mod windows;

verus! {

} // verus!
