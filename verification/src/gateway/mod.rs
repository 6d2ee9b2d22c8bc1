//! The gateway that a browser talks to: its requests, its answers, and what it
//! reports of itself.
pub mod errors;
pub mod input;
pub mod json;
pub mod respond;
pub mod trace;
pub mod fallback;
pub mod resolution_trace;
pub mod proof_details;
pub mod local_tls;
pub mod live_proof;
pub mod status;
pub mod sync_run;
pub mod serve;
pub mod info;
