//! A multi-process HTTP/1.1 application server core: the control-message
//! channel between the accepting server and its workers, the per-connection
//! state machines, request parsing and response framing.

pub mod encoder;
pub mod errors;
pub mod events;
pub mod http;
pub mod input;
pub mod msgs;
pub mod pythonthreads;
pub mod request;
pub mod server;
pub mod shutdown;
pub mod timersq;
pub mod worker;
pub mod workq;
pub mod writer;
