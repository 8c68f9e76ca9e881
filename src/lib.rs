//! A two-sided TCP tunnel: the wire formats and the per-connection decisions,
//! verified. Sockets, tasks and logging live outside this library.

pub mod wire;
pub mod util;
pub mod proto;
pub mod buffer;
pub mod codec;
pub mod rule;
pub mod relay;
