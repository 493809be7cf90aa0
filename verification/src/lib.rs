//! A peer cluster core: Bully leader election, heartbeat failure detection,
//! deterministic request routing over the probed alive set, and a worker
//! load balancer, with contracts over each component's mathematical model.
//! Transport, timers and file I/O stay outside; they drive the decision
//! functions these modules export.

pub mod assoc;
pub mod bully;
pub mod config;
pub mod decimal;
pub mod encryption;
pub mod loadbalancer;
pub mod protocol;
pub mod routing;
