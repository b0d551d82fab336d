//! A role-based access-control service.
//!
//! The library tracks which principals hold which roles, which roles may act
//! on which named resources, and runs a request/approval workflow in which a
//! privileged caller approves or denies a pending access request. Each access
//! request is processed at most once: a processing guard admits a single
//! processor per request id, and finalization moves the request to a terminal
//! state exactly once.
//!
//! The platform around the service (caller authentication, clocks, durable
//! storage) supplies plain values; every rule of the service itself is
//! verified.

pub mod laws;
pub mod permissions;
pub mod requests;
pub mod roles;
pub mod service;
