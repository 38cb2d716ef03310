//! The core of a daemon that runs one backend per agent of a project and
//! relays events and HTTP traffic between those backends and its clients.

pub mod aggregator;
pub mod laws;
pub mod message;
pub mod ports;
pub mod proxy;
pub mod session;
pub mod sse;
pub mod state;
