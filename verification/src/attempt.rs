//! Connecting to one socket address, step by step.
//!
//! The caller owns the sockets. `K` is its socket, `S` its stream and `E` its error. A step says
//! what to do next and what to hand the outcome to:
//!
//! * `Open`: open a socket, then call [`Opening::opened`];
//! * `Bind`: bind the socket, then call [`Binding::bound`];
//! * `Connect` and `ConnectUnbound`: connect, then call [`Connecting::connected`];
//! * `Done`: nothing is left to do.

use crate::address::{Family, IpAddr, SocketAddr};
use crate::assign::{
    assign_ipv4_from_extention, assign_ipv6_from_extention, ipv4_assigned, ipv6_assigned,
};
use crate::extension::Extensions;
use crate::network::IpCidr;
use vstd::prelude::*;

verus! {

/// What to do next to get a connection.
pub enum Step<K, S, E> {
    /// Open a socket of a family.
    Open(Family, Opening),
    /// Bind the socket to a local address.
    Bind(K, SocketAddr, Binding),
    /// Connect the socket to the target.
    Connect(K, SocketAddr, Connecting),
    /// Connect to the target from whatever local address the system picks.
    ConnectUnbound(SocketAddr, Connecting),
    /// Return the stream or the error.
    Done(Result<S, E>),
}

/// Where the local address of a socket comes from.
#[derive(Clone, Copy, Debug, PartialEq, Eq)]
pub enum Source {
    /// It is picked from a block.
    Cidr(IpCidr, Extensions),
    /// It is the fallback address.
    Fallback(IpAddr),
}

/// A socket is being opened.
#[derive(Clone, Copy, Debug, PartialEq, Eq)]
pub struct Opening {
    /// Where to take the address to bind the socket to.
    pub source: Source,
    /// What to do with the socket once it is bound.
    pub then_connect: Connecting,
}

/// A socket is being bound.
#[derive(Clone, Copy, Debug, PartialEq, Eq)]
pub struct Binding {
    /// What to do with the socket once it is bound.
    pub then_connect: Connecting,
}

/// A connection is being made.
#[derive(Clone, Copy, Debug, PartialEq, Eq)]
pub struct Connecting {
    /// The address to connect to.
    pub target: SocketAddr,
    /// The local address to try next if the connection fails.
    pub fallback: Option<IpAddr>,
}

/// Whether an address may be given to a connection with this extension.
pub open spec fn ip_assigned(cidr: IpCidr, extention: Extensions, ip: IpAddr) -> bool {
    match (cidr, ip) {
        (IpCidr::V4(cidr), IpAddr::V4(v4)) => ipv4_assigned(cidr, extention, v4),
        (IpCidr::V6(cidr), IpAddr::V6(v6)) => ipv6_assigned(cidr, extention, v6),
        _ => false,
    }
}

impl Source {
    /// Whether a socket may be bound to the address.
    pub open spec fn gives(self, ip: IpAddr) -> bool {
        match self {
            Source::Cidr(cidr, extention) => ip_assigned(cidr, extention, ip),
            Source::Fallback(fallback) => ip == fallback,
        }
    }
}

impl Opening {
    /// What follows the attempt to open the socket. If it failed, so does the connection.
    /// Otherwise the socket is bound to an address of the source, on a port that the system
    /// picks.
    pub open spec fn leads_to<K, S, E>(self, socket: Result<K, E>, step: Step<K, S, E>) -> bool {
        match socket {
            Ok(socket) => exists|ip: IpAddr| #[trigger]
                self.source.gives(ip) && step == Step::<K, S, E>::Bind(
                    socket,
                    SocketAddr::of(ip, 0),
                    Binding { then_connect: self.then_connect },
                ),
            Err(err) => step == Step::<K, S, E>::Done(Err(err)),
        }
    }

    /// Takes the socket, or the error, and says how to go on.
    pub fn opened<K, S, E>(self, socket: Result<K, E>) -> (res: Step<K, S, E>)
        ensures
            self.leads_to(socket, res),
    {
        match socket {
            Ok(socket) => {
                let ip: IpAddr = match self.source {
                    Source::Cidr(cidr, extention) => match cidr {
                        IpCidr::V4(cidr) => IpAddr::V4(assign_ipv4_from_extention(&cidr, extention)),
                        IpCidr::V6(cidr) => IpAddr::V6(assign_ipv6_from_extention(&cidr, extention)),
                    },
                    Source::Fallback(fallback) => fallback,
                };
                assert(self.source.gives(ip));
                Step::Bind(
                    socket,
                    SocketAddr::new(ip, 0),
                    Binding { then_connect: self.then_connect },
                )
            },
            Err(err) => Step::Done(Err(err)),
        }
    }
}

impl Binding {
    /// What follows the attempt to bind the socket. If it failed, so does the connection.
    /// Otherwise the socket is connected to the target.
    pub open spec fn next<K, S, E>(self, socket: Result<K, E>) -> Step<K, S, E> {
        match socket {
            Ok(socket) => Step::Connect(socket, self.then_connect.target, self.then_connect),
            Err(err) => Step::Done(Err(err)),
        }
    }

    /// Takes the bound socket, or the error, and says how to go on.
    pub fn bound<K, S, E>(self, socket: Result<K, E>) -> (res: Step<K, S, E>)
        ensures
            res == self.next::<K, S, E>(socket),
    {
        match socket {
            Ok(socket) => Step::Connect(socket, self.then_connect.target, self.then_connect),
            Err(err) => Step::Done(Err(err)),
        }
    }
}

impl Connecting {
    /// What follows the attempt to connect. If it failed and there is a fallback address, the
    /// target is tried again from there, and for the last time. Otherwise the outcome stands.
    pub open spec fn next<K, S, E>(self, stream: Result<S, E>) -> Step<K, S, E> {
        match (stream, self.fallback) {
            (Err(_), Some(fallback)) => fallback_step(self.target, fallback),
            _ => Step::Done(stream),
        }
    }

    /// Takes the stream, or the error, and says how to go on.
    pub fn connected<K, S, E>(self, stream: Result<S, E>) -> (res: Step<K, S, E>)
        ensures
            res == self.next::<K, S, E>(stream),
    {
        match stream {
            Ok(stream) => Step::Done(Ok(stream)),
            Err(err) => match self.fallback {
                Some(fallback) => try_connect_with_fallback(self.target, fallback),
                None => Step::Done(Err(err)),
            },
        }
    }
}

/// The first step towards the target from an address of a block.
pub open spec fn cidr_step<K, S, E>(
    cidr: IpCidr,
    extention: Extensions,
    then_connect: Connecting,
) -> Step<K, S, E> {
    Step::Open(cidr.family(), Opening { source: Source::Cidr(cidr, extention), then_connect })
}

/// The first step towards the target from the fallback address.
pub open spec fn fallback_step<K, S, E>(target: SocketAddr, fallback: IpAddr) -> Step<K, S, E> {
    Step::Open(
        fallback.family(),
        Opening {
            source: Source::Fallback(fallback),
            then_connect: Connecting { target, fallback: None },
        },
    )
}

/// Says which family a socket has to be of, to be bound to an address.
pub fn create_tcp_socket_for_ip(ip: &IpAddr) -> (res: Family)
    ensures
        res == ip.family(),
{
    match ip {
        IpAddr::V4(_) => Family::V4,
        IpAddr::V6(_) => Family::V6,
    }
}

/// Opens a socket of the family of the block, to be bound to an address that is picked from it.
pub fn create_and_bind_socket<K, S, E>(
    cidr: IpCidr,
    extention: Extensions,
    then_connect: Connecting,
) -> (res: Step<K, S, E>)
    ensures
        res == cidr_step::<K, S, E>(cidr, extention, then_connect),
{
    let family: Family = match cidr {
        IpCidr::V4(_) => Family::V4,
        IpCidr::V6(_) => Family::V6,
    };
    Step::Open(family, Opening { source: Source::Cidr(cidr, extention), then_connect })
}

/// Starts to connect to a target from an address of a block.
pub fn try_connect_with_cidr<K, S, E>(
    target: SocketAddr,
    cidr: IpCidr,
    extention: Extensions,
) -> (res: Step<K, S, E>)
    ensures
        res == cidr_step::<K, S, E>(cidr, extention, (Connecting { target, fallback: None })),
{
    create_and_bind_socket(cidr, extention, Connecting { target, fallback: None })
}

/// Starts to connect to a target from the fallback address.
pub fn try_connect_with_fallback<K, S, E>(target: SocketAddr, fallback: IpAddr) -> (res: Step<
    K,
    S,
    E,
>)
    ensures
        res == fallback_step::<K, S, E>(target, fallback),
{
    Step::Open(
        create_tcp_socket_for_ip(&fallback),
        Opening {
            source: Source::Fallback(fallback),
            then_connect: Connecting { target, fallback: None },
        },
    )
}

/// Starts to connect to a target from an address of a block, and from the fallback address if
/// the connection fails.
pub fn try_connect_with_cidr_and_fallback<K, S, E>(
    target: SocketAddr,
    cidr: IpCidr,
    fallback: IpAddr,
    extention: Extensions,
) -> (res: Step<K, S, E>)
    ensures
        res == cidr_step::<K, S, E>(
            cidr,
            extention,
            (Connecting { target, fallback: Some(fallback) }),
        ),
{
    create_and_bind_socket(cidr, extention, Connecting { target, fallback: Some(fallback) })
}

} // verus!
