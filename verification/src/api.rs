//! Tools offered over the Model Context Protocol interface.

use vstd::prelude::*;

verus! {

/// MCP tool definitions.
#[derive(Debug, Clone, Copy, PartialEq, Eq, Structural)]
pub enum McpTool {
    Put,
    Search,
    Query,
    IntentSearch,
    Surface,
    Extract,
    Reflect,
    Feedback,
    Forget,
    Status,
}

} // verus!
