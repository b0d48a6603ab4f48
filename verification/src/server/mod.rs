//! What the servers hand over: their errors, the responses sent back over TCP, and the
//! commands tagged with the kind of server that received them.

pub mod errors;
pub mod message;
pub mod tcp_response;
pub mod error_widths;
pub mod server;
pub mod route_laws;
