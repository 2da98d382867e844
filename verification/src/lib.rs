//! Bulk analysis of Git repositories: a verified core.
//!
//! The library models the state of a fleet of repository clones, selects
//! credentials from a rotating token pool, and parses the textual output of
//! the Git tooling (clone progress, per-line blame, commit history with
//! numeric stats) into plain records.  Everything here is pure logic on plain
//! values; the process and network work that feeds it lives outside the
//! library.

pub mod blame;
pub mod commits;
pub mod manager;
pub mod progress;
pub mod providers;
pub mod tasks;
pub mod text;
pub mod token;
