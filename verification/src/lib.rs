//! A verified worker-selection and request-dispatch engine for a small HTTP
//! load balancer: a worker registry with per-worker connection accounting,
//! two selection strategies (round robin and least connections), and the
//! target-rewrite step of request forwarding.

pub mod dispatch;
pub mod laws;
pub mod lb_service;
pub mod services;
