//! The destructive-action gate: the decision taken before any overwrite or
//! removal, and the one-time confirmation that a bulk removal asks for
//! before its walk begins.

use vstd::prelude::*;

use crate::perm::has_bits;
use crate::perm::S_IWUSR;

verus! {

/// When the prompt-selection flag asks for confirmation.
#[derive(Debug, Clone, Copy, PartialEq, Eq, Structural)]
pub enum When {
    /// Never prompt about destructive actions.
    Never,
    /// Prompt once before the whole invocation.
    Once,
    /// Prompt before every destructive action.
    Always,
}

/// The flags that drive the destructive-action gate.
#[derive(Debug, Clone, Copy, PartialEq, Eq, Structural)]
pub struct DestructiveConfig {
    /// Proceed unconditionally.
    pub force: bool,
    /// Prompt before each destructive action.
    pub interactive: bool,
    /// Ask a single confirmation before a bulk removal.
    pub interactive_once: bool,
    /// Refuse outright instead of overwriting.
    pub no_clobber: bool,
    /// The explicit prompt-selection flag, when given.
    pub interactive_when: Option<When>,
}

/// The decision taken for one entry before an overwrite or removal.
#[derive(Debug, Clone, Copy, PartialEq, Eq, Structural)]
pub enum GateDecision {
    /// Perform the action.
    Proceed,
    /// Ask the user first; a declined prompt ends the invocation cleanly.
    Prompt,
    /// Stop the whole invocation with an error.
    Refuse,
}

/// The decision for one entry, given whether the destination exists and
/// whether the target is write-protected: force (or an explicit
/// never-prompt) proceeds unconditionally; refusing to clobber an
/// existing destination is a hard stop; a write-protected target prompts
/// whatever the interactive setting is; an interactive run prompts before
/// overwriting or removing anything that exists.
pub open spec fn spec_gate(cfg: DestructiveConfig, dest_exists: bool, write_protected: bool) -> GateDecision {
    if cfg.force || cfg.interactive_when == Some(When::Never) {
        GateDecision::Proceed
    } else if cfg.no_clobber && dest_exists {
        GateDecision::Refuse
    } else if write_protected && dest_exists {
        GateDecision::Prompt
    } else if (cfg.interactive || cfg.interactive_when == Some(When::Always)) && dest_exists {
        GateDecision::Prompt
    } else {
        GateDecision::Proceed
    }
}

/// Evaluates the destructive-action gate for one entry.
pub fn evaluate_gate(cfg: &DestructiveConfig, dest_exists: bool, write_protected: bool) -> (r:
    GateDecision)
    ensures
        r == spec_gate(*cfg, dest_exists, write_protected),
{
    let never = match cfg.interactive_when {
        Some(When::Never) => true,
        _ => false,
    };
    let always = match cfg.interactive_when {
        Some(When::Always) => true,
        _ => false,
    };
    if cfg.force || never {
        GateDecision::Proceed
    } else if cfg.no_clobber && dest_exists {
        GateDecision::Refuse
    } else if write_protected && dest_exists {
        GateDecision::Prompt
    } else if (cfg.interactive || always) && dest_exists {
        GateDecision::Prompt
    } else {
        GateDecision::Proceed
    }
}

/// A target counts as write-protected when its owner-write bit is clear;
/// a removal then prompts even without the interactive flag.
pub fn write_protection(mode: u32) -> (r: bool)
    ensures
        r == !has_bits(mode, S_IWUSR),
{
    mode & S_IWUSR == 0
}

/// Whether the one-time confirmation fires before a removal walk begins:
/// the prompt-once mode is active and either three or more roots were
/// named or recursion was requested.
pub fn prompt_once_needed(cfg: &DestructiveConfig, n_roots: usize, recursive: bool) -> (r: bool)
    ensures
        r == ((cfg.interactive_once || cfg.interactive_when == Some(When::Once)) && (n_roots >= 3
            || recursive)),
{
    let once = match cfg.interactive_when {
        Some(When::Once) => true,
        _ => false,
    };
    (cfg.interactive_once || once) && (n_roots >= 3 || recursive)
}

} // verus!
