//! Verified core of a small POSIX file-utility suite.
//!
//! The crate holds the two engines that carry the real logic of the suite:
//! the symbolic-mode permission parser and evaluator used by `chmod` (and by
//! the preserve-mode path of `cp`), and the recursive tree walker with
//! policy-driven per-entry action dispatch shared by the recursive forms of
//! `cp`, `chown`, `chmod` and `rm`.  Everything here is pure: the surrounding
//! binary gathers a snapshot of the filesystem, hands it to these functions,
//! and performs the operating-system calls that the engine plans.

pub mod backup;
pub mod engine;
pub mod gate;
pub mod mode_expr;
pub mod perm;
pub mod util;
pub mod walk;
