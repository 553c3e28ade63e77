//! The decisions of `git-loom`, a tool that keeps an integration branch woven
//! from feature branches: which files a fold takes, what a rebase came to,
//! how arguments after `--` reach git, how the weave is swapped, filtered and
//! written as a rebase todo, how a command's rebase is paused, continued and
//! aborted, and what an update fetches and reports.

pub mod cleanup;
pub mod commit;
pub mod exe;
pub mod forward;
pub mod hunks;
pub mod rebase;
pub mod status;
pub mod targets;
pub mod transaction;
pub mod update;
pub mod weave;
pub mod words;
