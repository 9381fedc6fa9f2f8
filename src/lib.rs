//! The core of a desktop chat client that speaks to several model providers
//! through one streaming event interface and runs tools on MCP servers.
//!
//! - `lines`: byte streams cut into lines, whatever the chunking.
//! - `json`: the JSON values the library reads and builds.
//! - `ollama`, `openai`, `anthropic`, `google`: each provider's stream demux.
//! - `requests`, `providers`: each provider's request.
//! - `orchestrator`: the decisions of a tool-augmented conversation.
//! - `registry`: the streams in flight and their cancellation flags.
//! - `mcp`, `protocol`: JSON-RPC framing and MCP results.
//! - `config`: provider configs and their list.

use vstd::prelude::*;

pub mod anthropic;
pub mod config;
pub mod events;
pub mod google;
pub mod json;
pub mod lines;
pub mod mcp;
pub mod message;
pub mod ollama;
pub mod openai;
pub mod orchestrator;
pub mod protocol;
pub mod providers;
pub mod registry;
pub mod requests;
pub mod text;

verus! {

} // verus!
