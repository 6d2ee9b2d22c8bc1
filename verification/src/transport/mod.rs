//! Talking HTTP to an origin: requests, responses, certificates and reuse of
//! connections.
pub mod types;
pub mod request;
pub mod response;
pub mod altsvc;
pub mod handshake;
pub mod pool;
pub mod exchange;
