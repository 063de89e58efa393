//! The instruction-execution core of a stack-based database scripting engine:
//! the binary item encoding, the execution context, the handler dispatch
//! chain, the identifier instruction module and the client wire protocol.

pub mod encoding;
pub mod error;
pub mod env;
pub mod dispatch;
pub mod mod_uuid;
pub mod protocol;
pub mod client;
pub mod script;
