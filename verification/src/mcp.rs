//! The state of a minimal MCP (Model Context Protocol) JSON-RPC client over
//! HTTP: which endpoint it speaks to, with which key, and the ids it gives
//! its requests. The requests themselves are sent by the caller.

use vstd::prelude::*;
use crate::text::{chars_of, extend_str, string_of, trim, trim_chars};

verus! {

/// Why an MCP request failed.
#[derive(Debug, Clone, PartialEq, Eq)]
pub enum McpError {
    /// The HTTP exchange failed.
    Http(String),
    /// The server answered with an error, or an answer of the wrong shape.
    Rpc(String),
    /// The client was configured wrongly.
    Config(String),
}

/// The message shown for an MCP error.
pub open spec fn mcp_error_text(e: McpError) -> Seq<char> {
    match e {
        McpError::Http(s) => "mcp http error: "@ + s@,
        McpError::Rpc(s) => "mcp rpc error: "@ + s@,
        McpError::Config(s) => "mcp configuration: "@ + s@,
    }
}

impl McpError {
    /// The human-readable message.
    pub fn message(&self) -> (m: String)
        ensures
            m@ == mcp_error_text(*self),
    {
        let mut v: Vec<char> = Vec::new();
        match self {
            McpError::Http(s) => {
                extend_str(&mut v, "mcp http error: ");
                extend_str(&mut v, s.as_str());
            },
            McpError::Rpc(s) => {
                extend_str(&mut v, "mcp rpc error: ");
                extend_str(&mut v, s.as_str());
            },
            McpError::Config(s) => {
                extend_str(&mut v, "mcp configuration: ");
                extend_str(&mut v, s.as_str());
            },
        }
        string_of(&v)
    }
}

/// One MCP endpoint: where requests go, the bearer key they carry, and the
/// id the next request gets.
#[derive(Debug)]
pub struct McpClient {
    pub base_url: String,
    pub api_key: Option<String>,
    pub next_id: u64,
}

/// The id after `id`, wrapping at `u64::MAX` as an atomic counter does.
pub open spec fn following_id(id: u64) -> u64 {
    if id == u64::MAX {
        0
    } else {
        (id + 1) as u64
    }
}

impl McpClient {
    /// A client for `base_url`; refused when the URL is blank. Request ids
    /// start at 1.
    pub fn new(base_url: &str, api_key: Option<String>) -> (r: Result<Self, McpError>)
        ensures
            r is Ok <==> trim(base_url@).len() > 0,
            r matches Ok(c) ==> c.base_url@ == base_url@ && c.api_key == api_key && c.next_id == 1,
            r matches Err(e) ==> e matches McpError::Config(m) && m@ == "base_url cannot be empty"@,
    {
        if trim_chars(&chars_of(base_url)).len() == 0 {
            return Err(McpError::Config("base_url cannot be empty".to_owned()));
        }
        Ok(McpClient { base_url: base_url.to_owned(), api_key, next_id: 1 })
    }

    /// The id for the next request; ids count up from one.
    pub fn take_request_id(&mut self) -> (id: u64)
        ensures
            id == old(self).next_id,
            final(self).next_id == following_id(old(self).next_id),
            final(self).base_url == old(self).base_url,
            final(self).api_key == old(self).api_key,
    {
        let id = self.next_id;
        self.next_id = if id == u64::MAX {
            0
        } else {
            id + 1
        };
        id
    }
}

} // verus!
