//! An in-memory pastebin: pastes live in a `Vec`, a global tick records when
//! each paste was last touched, and a countdown LRU sweep frees room once the
//! store is full. Rendering of paste pages and the text helpers they need are
//! here too; the HTTP and MCP servers around them live outside this crate.
pub mod model;
pub mod text;

pub mod store;
pub mod render;
pub mod markdown;
pub mod mcp;
pub mod routes;
