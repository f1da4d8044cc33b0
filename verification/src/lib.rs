//! Control logic of a network-attached lock: request parsing, the lock
//! register, response rendering and the state machines that drive the
//! serving loop and the wireless link.

pub mod exchange;
pub mod lock;
pub mod network;
pub mod request;
pub mod response;
pub mod server;
pub mod session;
pub mod supervisor;
pub mod text;
pub mod timing;
