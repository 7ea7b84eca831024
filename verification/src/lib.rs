//! A user-space TCP tunneling core: an AEAD frame codec, a framed byte-stream
//! adapter, an IPv4/TCP packet crafter and parser, the proxy handshake, and
//! the per-flow tunnel engine.

pub mod codec;
pub mod engine;
pub mod framing;
pub mod packet;
pub mod proxy;
