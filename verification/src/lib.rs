//! Translation between textual multi-protocol addresses (multiaddrs) and
//! transport-level routes.
//!
//! A multiaddr is an ordered sequence of typed segments (DNS host, IPv4/IPv6
//! address, TCP port, symbolic node alias, local service name).  A route is an
//! ordered sequence of transport-tagged hop addresses.  This crate provides
//! the pure translation operations between the two forms together with the
//! alias-resolution step that expands symbolic node names into concrete
//! endpoints, all verified against their contracts.

pub mod addr;
pub mod commands;
pub mod error;
pub mod laws;
pub mod lookup;
pub mod route;
pub mod segment;
pub mod text;
pub mod util;
