//! The two standalone balancer services: a round-robin balancer and a
//! least-connections balancer over a plain server list.

pub mod least_connections;
pub mod round_robin;
