//! Decision layer of a transparent proxy.
//!
//! Given an accepted connection (or, in ingress mode, an HTTP request on such
//! a connection), this library decides whether the connection is permitted,
//! which logical destination and routing strategy apply, and how endpoint
//! discovery for that destination is obtained and kept fresh, including
//! recovery from discovery-service failures.
//!
//! The library holds the decision logic only: policy lookup and connection
//! classification, override-header parsing and the discovery gate, the cached
//! and backpressured router, and the permit-filtered discovery resolver with
//! backoff recovery. Connection I/O, TLS, HTTP wire handling and the discovery
//! wire protocol are external collaborators; they hand this library plain
//! values and take plain values back.

pub mod addr;
pub mod backoff;
pub mod bytes;
pub mod ingress;
pub mod name;
pub mod net;
pub mod policy;
pub mod resolve;
pub mod router;
