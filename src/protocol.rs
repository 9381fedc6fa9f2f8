use vstd::prelude::*;
use crate::json::Json;

verus! {

/// One part of a tool's result.
#[allow(inconsistent_fields)]
#[derive(Clone, Debug, PartialEq)]
pub enum Content {
    Text { text: String },
    Image { data: String, mime_type: String },
    Resource { uri: String, mime_type: Option<String>, text: Option<String>, blob: Option<String> },
}

/// What `tools/call` returns.
#[derive(Clone, Debug, PartialEq)]
pub struct CallToolResult {
    pub content: Vec<Content>,
    pub is_error: bool,
}

/// A tool that a server offers.
pub struct Tool {
    pub name: String,
    pub description: Option<String>,
    pub input_schema: Json,
}

#[derive(Clone, Debug, PartialEq)]
pub struct RootsCapability {
    pub list_changed: Option<bool>,
}

#[derive(Clone, Debug, PartialEq)]
pub struct ClientInfo {
    pub name: String,
    pub version: String,
}

#[derive(Clone, Debug, PartialEq)]
pub struct ServerInfo {
    pub name: String,
    pub version: String,
}

/// A JSON-RPC error object.
#[derive(Clone, Debug, PartialEq)]
pub struct JsonRpcError {
    pub code: i64,
    pub message: String,
}

} // verus!
