//! The connector of `hyper_util`, as far as local addresses go.

use crate::address::IpAddr;
use hyper_util::client::legacy::connect::dns::GaiResolver;
use hyper_util::client::legacy::connect::HttpConnector;
use vstd::prelude::*;

verus! {

/// The connector of `hyper_util`, which connects over TCP from the local addresses it is given.
#[verifier::external_type_specification]
#[verifier::external_body]
#[verifier::reject_recursive_types(R)]
pub struct ExHttpConnector<R>(HttpConnector<R>);

/// The resolver of a connector of `hyper_util` that is made without one.
#[verifier::external_type_specification]
#[verifier::external_body]
pub struct ExGaiResolver(GaiResolver);

/// The address that the connector holds for its IPv4 sockets to be bound to, if any.
pub uninterp spec fn local_ipv4(connector: HttpConnector) -> Option<u32>;

/// The address that the connector holds for its IPv6 sockets to be bound to, if any.
pub uninterp spec fn local_ipv6(connector: HttpConnector) -> Option<u128>;

/// What the connector holds besides the two local addresses, written out as numbers: its timeouts
/// and its socket options.
pub uninterp spec fn other_settings(connector: HttpConnector) -> Seq<nat>;

/// Whether a connector is one that `HttpConnector::new` may give.
pub closed spec fn is_fresh(connector: HttpConnector) -> bool {
    call_ensures(http_connector, (), connector)
}

/// A connector counts as fresh only if the call of `HttpConnector::new` can return it.
proof fn fresh_connector_comes_from_the_call(connector: HttpConnector)
    requires
        is_fresh(connector),
    ensures
        call_ensures(http_connector, (), connector),
{
}

/// A fresh connector has no local address.
pub proof fn fresh_connector_has_no_local_address(connector: HttpConnector)
    requires
        is_fresh(connector),
    ensures
        local_ipv4(connector) is None,
        local_ipv6(connector) is None,
{
}

/// `HttpConnector::new`: the connector has no local address of either family.
#[verifier::external_body]
fn http_connector() -> (res: HttpConnector)
    ensures
        local_ipv4(res) == None::<u32>,
        local_ipv6(res) == None::<u128>,
{
    HttpConnector::new()
}

/// Makes a connector that nothing was set on yet.
pub(crate) fn fresh_connector() -> (res: HttpConnector)
    ensures
        is_fresh(res),
        local_ipv4(res) == None::<u32>,
        local_ipv6(res) == None::<u128>,
{
    http_connector()
}

/// `HttpConnector::set_local_address`, with an address: it becomes the local address of its
/// family, and the other family has none. The other settings are kept.
#[verifier::external_body]
pub(crate) fn set_local_address(connector: &mut HttpConnector, ip: IpAddr)
    ensures
        local_ipv4(*final(connector)) == match ip {
            IpAddr::V4(v4) => Some(v4),
            IpAddr::V6(_) => None,
        },
        local_ipv6(*final(connector)) == match ip {
            IpAddr::V4(_) => None,
            IpAddr::V6(v6) => Some(v6),
        },
        other_settings(*final(connector)) == other_settings(*old(connector)),
{
    match ip {
        IpAddr::V4(v4) => connector.set_local_address(Some(v4.to_be_bytes().into())),
        IpAddr::V6(v6) => connector.set_local_address(Some(v6.to_be_bytes().into())),
    }
}

/// `HttpConnector::set_local_addresses`: each family gets the address that is given for it.
/// The other settings are kept.
#[verifier::external_body]
pub(crate) fn set_local_addresses(connector: &mut HttpConnector, v4: u32, v6: u128)
    ensures
        local_ipv4(*final(connector)) == Some(v4),
        local_ipv6(*final(connector)) == Some(v6),
        other_settings(*final(connector)) == other_settings(*old(connector)),
{
    connector.set_local_addresses(v4.into(), v6.into())
}

} // verus!
