//! Planning of outbound requests.

pub mod fetch_loopback;
pub mod url_parts;
