//! Routing of HTTP requests by the subdomain named in the `Host` header.
//!
//! The crate's core is a verified, pure decision procedure: it parses a raw
//! host string (possibly carrying a port, an IPv4 literal, a recognized
//! top-level domain, or a configured full-domain suffix) into an optional
//! subdomain key, looks that key up in an immutable routing table, and
//! chooses among a matched handler, a strict rejection, and a fallback
//! handler. The table is built once by a fluent builder and is read-only
//! afterwards; handlers themselves are opaque to this crate.

pub mod extract;
pub mod scan;
pub mod routing;
pub mod tlds;
