//! The framing layer of an HTTP/1.x forward proxy: a codec for requests and
//! responses, the keep-alive policy, the relay's per-connection decisions and
//! the active-connection count.
pub mod wire;
pub mod http;
pub mod relay;
pub mod counter;
