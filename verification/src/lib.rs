//! Streaming WebSocket frame codec for a client consuming continuous
//! binary feeds: an incremental header parser correct under arbitrary
//! byte fragmentation, a payload unmasking engine whose bulk and scalar
//! paths are provably byte-identical, a bounded accumulation buffer, and
//! message-level orchestration (fragment reassembly, automatic control
//! frame handling) — each carrying a contract that pins its behaviour to
//! a mathematical model of the wire format.

pub mod buffer;
pub mod connection;
pub mod frame;
pub mod mask;
