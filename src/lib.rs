//! Core of an agent runtime that mediates between a language-model provider
//! and tool-providing extensions: the message model, the context budgeter,
//! the decisions of the turn-taking reply loop, the extension registry, the
//! JSON-RPC envelopes, pending-request table and typed calls of the MCP
//! client, the developer extension's tool logic, and the provider message
//! formats.
pub mod text;
pub mod json;
pub mod message;
pub mod session;
pub mod budget;
pub mod reply;
pub mod capabilities;
pub mod pending;
pub mod developer;
pub mod utils;
pub mod system;
pub mod anthropic;
pub mod jsonrpc;
pub mod router;
pub mod mcp;
