//! The decision core of a Handshake browser: name classification, delegated
//! DNSSEC resolution, header and proof synchronisation, origin HTTP framing and
//! the gateway responses that report on all of them.
#![allow(unused_imports)]

pub mod authoritative;
pub mod bytes;
pub mod cache;
pub mod delegating;
pub mod dns;
pub mod dnssec;
pub mod error;
pub mod gateway;
pub mod hash;
pub mod name;
pub mod nameserver;
pub mod proven;
pub mod resolver;
pub mod store;
pub mod sync;
pub mod system;
pub mod text;
pub mod transport;
