//! OpenLive core: verified wire codecs, session bookkeeping and agent helpers
//! of the OpenLive full-duplex voice runtime.

pub mod media;
pub mod wav;
pub mod text;
pub mod clock;
pub mod protocol;
pub mod tasks;
pub mod session_state;
pub mod agent;
pub mod pending;
pub mod pool;
pub mod catalog;
pub mod llm;
pub mod streaming;
pub mod provider;
pub mod gateway;
pub mod knowledge;
pub mod context;
pub mod memory;
pub mod piper;
pub mod sandbox;
pub mod headless;
pub mod mock;
pub mod jobs;
pub mod audio;
pub mod order;
pub mod mcp;
pub mod tool_calls;
