//! Request-routing core of a multi-service API gateway: the routing table,
//! the per-request decisions of the proxy lifecycle, the WebSocket header
//! smuggling channel and the rendering of failures.

pub mod bytes;
pub mod router;
pub mod smuggle;
pub mod gateway;
