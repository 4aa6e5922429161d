//! Lifecycle hooks for session events.

use vstd::prelude::*;

verus! {

/// Hook events that trigger memory operations.
#[derive(Debug, Clone, Copy, PartialEq, Eq, Structural)]
pub enum HookEvent {
    /// Session starting.
    SessionStart,
    /// User submitted a prompt.
    UserPrompt,
    /// Session ending (stop).
    SessionStop,
    /// Pre-compaction checkpoint.
    PreCompact,
    /// Post-compaction.
    PostCompact,
}

/// Hook trigger types.
#[derive(Debug, Clone, Copy, PartialEq, Eq, Structural)]
pub enum HookTrigger {
    /// Before an LLM call.
    PreToolUse,
    /// After an LLM call.
    PostToolUse,
    /// On session start.
    SessionStart,
    /// On session stop.
    SessionStop,
    /// Before context compaction.
    PreCompact,
    /// After compaction.
    PostCompact,
    /// Before prompt build.
    BeforePromptBuild,
    /// User prompt submitted.
    UserPromptSubmit,
}

} // verus!
