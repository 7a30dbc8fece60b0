//! Choosing where outgoing proxy connections come from.
//!
//! A [`Connector`] may hold a block of addresses and a fallback address. It picks the local
//! address that a connection is bound to, decides what to try when a connection fails, and in
//! which order the addresses of a domain are tried. Sockets are left to the caller: a decision is
//! handed out as a [`Step`], and the caller hands back what came of it.

pub mod address;
pub mod assign;
pub mod attempt;
mod bits;
pub mod connector;
pub mod domain;
pub mod extension;
pub mod http;
pub mod laws;
pub mod network;

pub use address::{Family, IpAddr, SocketAddr, SocketAddrV4, SocketAddrV6};
pub use assign::{
    assign_ipv4_from_extention, assign_ipv6_from_extention, assign_rand_ipv4, assign_rand_ipv6,
    rand_ipv4, rand_ipv6,
};
pub use attempt::{
    create_and_bind_socket, create_tcp_socket_for_ip, try_connect_with_cidr,
    try_connect_with_cidr_and_fallback, try_connect_with_fallback, Binding, Connecting, Opening,
    Source, Step,
};
pub use connector::Connector;
pub use domain::{
    no_address_kind, no_address_message, DomainAttempt, DomainError, DomainState, DomainStep,
    ErrorKind,
};
pub use extension::Extensions;
pub use network::{IpCidr, Ipv4Cidr, Ipv6Cidr, NetworkError};
