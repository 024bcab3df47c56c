//! Request-processing plugins of a reverse-proxy gateway: a per-key
//! in-flight request limiter and a static file / directory server, both
//! built from a one-line configuration string.

pub mod directory;
pub mod limit;
pub mod plugin;
pub mod text;
