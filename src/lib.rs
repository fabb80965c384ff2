//! The dialog core of a small SIP back-to-back user agent: header parsing, the user
//! directory, the bounded call table, message composition, and the per-call state machine
//! that bridges a caller's dialog and the server's dialog toward the callee.

pub mod call_map;
pub mod compose;
pub mod dialog;
pub mod parsing;
pub mod rewrite;
pub mod sip_defs;
pub mod text;
pub mod worker;
