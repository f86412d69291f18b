//! Headless session engine: keeps a set of locally shared workspaces in sync
//! with the desired-state instructions pushed by a remote coordination server,
//! and replays enough state on reconnect that sharing survives transport
//! drops.
//!
//! The engine itself is pure decision logic: every transport call, await and
//! signal lives in the surrounding driver, which hands the engine plain
//! events (a pushed desired-state set, an RPC outcome, a connectivity status)
//! and performs the actions the engine decides on.

pub mod messages;
pub mod project_settings;
pub mod reconcile;
pub mod resync;
pub mod seq_lemmas;
pub mod session;
pub mod supervisor;
pub mod workspace;
