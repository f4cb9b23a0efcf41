//! X11 traffic: wire integers, socket recognition, sequence rewriting and the state that
//! the injected requests go through.
pub mod codec;
pub mod connection;
pub mod sequence;
