//! Session-aware shell history: a pure command splitter, an append-only
//! history store keyed by lazily created sessions, and the state machine
//! behind the interactive history browser.
//!
//! - [`splitter`]: one raw shell line to its sub-commands, with alias
//!   resolution as a pure decision over probe results.
//! - [`keys`]: which environment probe determines the session key.
//! - [`store`]: the history store's two tables, their invariants, and
//!   retrieval most-recent-first.
//! - [`logger`]: the whole logging flow of one invocation.
//! - [`browser`]: navigation, live search and session drill-down.
//! - [`install`]: the shell-hook snippets the installer appends.
//! - [`render`] and [`text`]: display and string helpers.

pub mod browser;
pub mod install;
pub mod keys;
pub mod logger;
pub mod render;
pub mod splitter;
pub mod store;
pub mod text;
