//! The connector: a block of addresses and a fallback address.

use crate::address::{IpAddr, SocketAddr};
use crate::assign::{
    assign_ipv4_from_extention, assign_ipv6_from_extention, ipv4_assigned, ipv6_assigned,
};
use crate::attempt::{
    cidr_step, fallback_step, try_connect_with_cidr, try_connect_with_cidr_and_fallback,
    try_connect_with_fallback, Connecting, Step,
};
use crate::domain::{DomainAttempt, DomainError, DomainState, DomainStep};
use crate::extension::Extensions;
use crate::http::{
    fresh_connector, is_fresh, local_ipv4, local_ipv6, other_settings, set_local_address,
    set_local_addresses,
};
use crate::network::IpCidr;
use hyper_util::client::legacy::connect::HttpConnector;
use vstd::prelude::*;

verus! {

/// Makes connections from the addresses of a block, or from a fallback address.
#[derive(Clone, Copy, Debug, PartialEq, Eq)]
pub struct Connector {
    cidr: Option<IpCidr>,
    fallback: Option<IpAddr>,
}

impl Connector {
    /// The block that local addresses are picked from.
    pub closed spec fn cidr(self) -> Option<IpCidr> {
        self.cidr
    }

    /// The local address for what the block does not serve.
    pub closed spec fn fallback(self) -> Option<IpAddr> {
        self.fallback
    }

    /// Makes a connector with an optional block and an optional fallback address.
    pub fn new(cidr: Option<IpCidr>, fallback: Option<IpAddr>) -> (res: Connector)
        ensures
            res.cidr() == cidr,
            res.fallback() == fallback,
    {
        Connector { cidr, fallback }
    }

    /// Whether HTTP connections get an address of the block: there is a block, and the fallback
    /// address, if there is one, is of the other family.
    pub open spec fn http_uses_cidr(self) -> bool {
        match (self.cidr(), self.fallback()) {
            (Some(cidr), Some(fallback)) => cidr.family() != fallback.family(),
            (Some(_), None) => true,
            _ => false,
        }
    }

    /// Whether these are the local addresses of HTTP connections. Of the family of the block
    /// it is an address of the block, and of the other family it is the fallback address.
    /// Without a block the fallback address is the only one. A fallback address of the family of
    /// the block leaves both without one.
    pub open spec fn http_local(
        self,
        extention: Extensions,
        v4: Option<u32>,
        v6: Option<u128>,
    ) -> bool {
        match (self.cidr(), self.fallback()) {
            (Some(IpCidr::V4(cidr)), Some(IpAddr::V6(fallback))) => {
                &&& v4 matches Some(v4) && ipv4_assigned(cidr, extention, v4)
                &&& v6 == Some(fallback)
            },
            (Some(IpCidr::V4(cidr)), None) => {
                &&& v4 matches Some(v4) && ipv4_assigned(cidr, extention, v4)
                &&& v6 is None
            },
            (Some(IpCidr::V6(cidr)), Some(IpAddr::V4(fallback))) => {
                &&& v4 == Some(fallback)
                &&& v6 matches Some(v6) && ipv6_assigned(cidr, extention, v6)
            },
            (Some(IpCidr::V6(cidr)), None) => {
                &&& v4 is None
                &&& v6 matches Some(v6) && ipv6_assigned(cidr, extention, v6)
            },
            (None, Some(IpAddr::V4(fallback))) => v4 == Some(fallback) && v6 is None,
            (None, Some(IpAddr::V6(fallback))) => v4 is None && v6 == Some(fallback),
            _ => v4 is None && v6 is None,
        }
    }

    /// Makes the connector for HTTP connections, with the local addresses that the block and the
    /// fallback address call for. In all else it is as `hyper_util` makes it.
    pub fn new_http_connector(&self, extention: Extensions) -> (res: HttpConnector)
        ensures
            self.http_local(extention, local_ipv4(res), local_ipv6(res)),
            exists|fresh: HttpConnector| #[trigger]
                is_fresh(fresh) && other_settings(res) == other_settings(fresh),
    {
        let mut connector: HttpConnector = fresh_connector();
        match (self.cidr, self.fallback) {
            (Some(IpCidr::V4(cidr)), Some(IpAddr::V6(v6))) => {
                let v4: u32 = assign_ipv4_from_extention(&cidr, extention);
                set_local_addresses(&mut connector, v4, v6);
            },
            (Some(IpCidr::V4(cidr)), None) => {
                let v4: u32 = assign_ipv4_from_extention(&cidr, extention);
                set_local_address(&mut connector, IpAddr::V4(v4));
            },
            (Some(IpCidr::V6(cidr)), Some(IpAddr::V4(v4))) => {
                let v6: u128 = assign_ipv6_from_extention(&cidr, extention);
                set_local_addresses(&mut connector, v4, v6);
            },
            (Some(IpCidr::V6(cidr)), None) => {
                let v6: u128 = assign_ipv6_from_extention(&cidr, extention);
                set_local_address(&mut connector, IpAddr::V6(v6));
            },
            (None, Some(ip)) => set_local_address(&mut connector, ip),
            _ => {},
        }
        connector
    }

    /// The first step towards an address: from the block where there is one, else from the
    /// fallback address where there is one, else directly. Where there are both, the fallback
    /// address is kept for a second try.
    pub open spec fn first_step<K, S, E>(self, addr: SocketAddr, extention: Extensions) -> Step<
        K,
        S,
        E,
    > {
        match (self.cidr(), self.fallback()) {
            (Some(cidr), fallback) => cidr_step(
                cidr,
                extention,
                Connecting { target: addr, fallback },
            ),
            (None, Some(fallback)) => fallback_step(addr, fallback),
            (None, None) => Step::ConnectUnbound(addr, Connecting { target: addr, fallback: None }),
        }
    }

    /// Starts to connect to an address.
    pub fn try_connect<K, S, E>(&self, addr: SocketAddr, extention: Extensions) -> (res: Step<
        K,
        S,
        E,
    >)
        ensures
            res == self.first_step::<K, S, E>(addr, extention),
    {
        match (self.cidr, self.fallback) {
            (Some(cidr), None) => try_connect_with_cidr(addr, cidr, extention),
            (None, Some(fallback)) => try_connect_with_fallback(addr, fallback),
            (Some(cidr), Some(fallback)) => try_connect_with_cidr_and_fallback(
                addr,
                cidr,
                fallback,
                extention,
            ),
            (None, None) => Step::ConnectUnbound(addr, Connecting { target: addr, fallback: None }),
        }
    }

    /// Whether this is how to connect to a domain, given what looking it up came to: an error is
    /// returned, and addresses are tried in order.
    pub open spec fn domain_start<K, S, E>(
        self,
        lookup: Result<Seq<SocketAddr>, E>,
        extention: Extensions,
        step: DomainStep<K, S, E>,
    ) -> bool {
        match lookup {
            Ok(remaining) => (DomainState { connector: self, extention, remaining, last_err: None::<
                E,
            > }).leads_to(step),
            Err(err) => step == DomainStep::<K, S, E>::Done(Err(DomainError::Failed(err))),
        }
    }

    /// Starts to connect to a domain, given what looking it up came to.
    pub fn try_connect_for_domain<K, S, E>(
        &self,
        lookup: Result<Vec<SocketAddr>, E>,
        extention: Extensions,
    ) -> (res: DomainStep<K, S, E>)
        ensures
            self.domain_start(
                match lookup {
                    Ok(targets) => Ok(targets@),
                    Err(err) => Err(err),
                },
                extention,
                res,
            ),
    {
        match lookup {
            Ok(targets) => DomainAttempt::start(*self, extention, targets),
            Err(err) => DomainStep::Done(Err(DomainError::Failed(err))),
        }
    }
}

} // verus!
