//! A minimal server-side implementation of the WebSocket protocol:
//! the HTTP/1.1 upgrade handshake, the binary frame codec, and the
//! per-connection session state machine that echoes messages,
//! answers control frames, and terminates on protocol violations.

pub mod accept;
pub mod ascii;
pub mod frame;
pub mod http;
pub mod session;
