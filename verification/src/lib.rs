//! Builds a validated NVMe-over-Fabrics discovery connection descriptor from a
//! flat list of command-line tokens.
//!
//! The heart of the crate is a single-pass parser over `--flag value` pairs:
//! each recognized flag maps to a strongly typed field of a
//! [`DiscoveryRecord`] with its own conversion rule (closed enumeration,
//! dotted-quad IPv4 address, unsigned 32-bit integer, free-text NQN). The
//! parser either returns a fully populated record or the first classified
//! error it encounters, left to right.

pub mod ipv4;
pub mod parser;
pub mod record;
pub mod text;

pub use ipv4::Ipv4Address;
pub use parser::{parse, ParseError};
pub use record::{AddressFamily, DiscoveryRecord, TransportType};
