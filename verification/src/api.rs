//! The gatekeeper for outbound MediaWiki traffic: backoff schedule, circuit
//! breaker, response cache, kill switch, request log, the transport types and
//! the governance decisions that compose them.

pub mod backoff;
pub mod breaker;
pub mod cache;
pub mod client;
pub mod kill_switch;
pub mod log_buffer;
pub mod testing;
pub mod transport;
