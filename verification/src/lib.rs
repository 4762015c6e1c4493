//! A verified core for a minimal single-request byte-stream server: parsing
//! of a raw request buffer, routing over a small route table, and framing of
//! the response, including gzip content negotiation and conditional
//! connection persistence.

pub mod bytes;
pub mod gzip;
pub mod handler;
pub mod request;
pub mod response;

