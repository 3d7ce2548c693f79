//! Decision logic of a headless IDA Pro MCP server.
//!
//! Files, IDA and the client stay outside: what is known of them comes in as plain values, and
//! what is to be done with them goes out as plain values.

pub mod cancellation;
pub mod database;
pub mod db_info;
pub mod debug_info;
pub mod digest;
pub mod disasm;
pub mod error;
pub mod files;
pub mod functions;
pub mod http_config;
pub mod json;
pub mod number;
pub mod open;
pub mod open_answers;
pub mod open_asks;
pub mod open_laws;
pub mod open_starts;
pub mod open_types;
pub mod output;
pub mod path;
pub mod probe;
pub mod script;
pub mod server;
pub mod stdio_transport;
pub mod text;
