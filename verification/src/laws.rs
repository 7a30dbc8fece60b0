//! What holds of the library as a whole.

use crate::address::{Family, IpAddr, SocketAddr};
use crate::assign::{
    drawn_u128, drawn_u32, ipv4_assigned, ipv4_session, ipv6_assigned, ipv6_session,
    lemma_rand_address, rand_address, session_host,
};
use crate::attempt::{cidr_step, fallback_step, Binding, Connecting, Opening, Source, Step};
use crate::bits::{lemma_block_is_range, lemma_u128_width, lemma_u32_width};
use crate::connector::Connector;
use crate::domain::{DomainError, DomainState, DomainStep};
use crate::extension::Extensions;
use crate::network::{IpCidr, Ipv4Cidr, Ipv6Cidr};
use vstd::arithmetic::div_mod::{
    lemma_fundamental_div_mod, lemma_mod_bound, lemma_mod_equivalence,
};
use vstd::arithmetic::power2::{
    lemma2_to64, lemma_pow2_adds, lemma_pow2_pos, lemma_pow2_strictly_increases, pow2,
};
use vstd::prelude::*;

verus! {

/// No address of an IPv4 block is past the last IPv4 address.
proof fn lemma_ipv4_block_fits(cidr: Ipv4Cidr)
    requires
        cidr.wf(),
    ensures
        cidr.first() + cidr.size() <= u32::MAX + 1,
{
    let size = cidr.size();
    let blocks = pow2(cidr.length() as nat);
    lemma_pow2_pos((32 - cidr.length()) as nat);
    lemma_pow2_adds(cidr.length() as nat, (32 - cidr.length()) as nat);
    lemma_u32_width();
    let q = cidr.first() as nat / size;
    lemma_fundamental_div_mod(cidr.first() as int, size as int);
    assert(cidr.first() + size <= u32::MAX + 1) by (nonlinear_arith)
        requires
            cidr.first() == size * q,
            blocks * size == u32::MAX + 1,
            cidr.first() <= u32::MAX,
            size > 0,
    ;
}

/// No address of an IPv6 block is past the last IPv6 address.
proof fn lemma_ipv6_block_fits(cidr: Ipv6Cidr)
    requires
        cidr.wf(),
    ensures
        cidr.first() + cidr.size() <= u128::MAX + 1,
{
    let size = cidr.size();
    let blocks = pow2(cidr.length() as nat);
    lemma_pow2_pos((128 - cidr.length()) as nat);
    lemma_pow2_adds(cidr.length() as nat, (128 - cidr.length()) as nat);
    lemma_u128_width();
    let q = cidr.first() as nat / size;
    lemma_fundamental_div_mod(cidr.first() as int, size as int);
    assert(cidr.first() + size <= u128::MAX + 1) by (nonlinear_arith)
        requires
            cidr.first() == size * q,
            blocks * size == u128::MAX + 1,
            cidr.first() <= u128::MAX,
            size > 0,
    ;
}

/// Cutting a half of an identifier to 32 bits leaves its remainder.
proof fn lemma_ipv4_session(id: (u64, u64))
    ensures
        ipv4_session(id) == (id.0 as u32) as nat,
{
    let a = id.0;
    assert(a as u32 == a % 0x1_0000_0000) by (bit_vector);
}

/// An IPv4 address that is given to a connection lies in the block. Without a session it is as
/// far from the first address as a drawn random number says, modulo the number of addresses. For a
/// session it is as far as the identifier says, modulo one less than that number.
pub proof fn ipv4_address_from_a_block(cidr: Ipv4Cidr, extention: Extensions, address: u32)
    requires
        ipv4_assigned(cidr, extention, address),
    ensures
        cidr.first() <= address < cidr.first() + pow2((32 - cidr.length()) as nat),
        extention is Absent ==> exists|rand: u32| #[trigger]
            drawn_u32(rand) && address == cidr.first() + rand as nat
                % pow2((32 - cidr.length()) as nat),
        extention matches Extensions::Session((a, _)) ==> cidr.length() < 32 ==> address
            == cidr.first() + (a as u32) as nat % (pow2((32 - cidr.length()) as nat) - 1) as nat,
{
    if let Extensions::Session(id) = extention {
        lemma_ipv4_session(id);
        if cidr.length() < 32 {
            lemma_pow2_strictly_increases(0, (32 - cidr.length()) as nat);
            lemma2_to64();
        }
    }
}

/// Every IPv4 address of a block can be drawn for a connection without a session: the number that
/// the address is picks it.
pub proof fn ipv4_every_address_can_be_drawn(cidr: Ipv4Cidr, address: u32)
    requires
        cidr.wf(),
        cidr.first() <= address < cidr.first() + pow2((32 - cidr.length()) as nat),
        drawn_u32(address),
    ensures
        ipv4_assigned(cidr, Extensions::Absent, address),
{
    lemma_pow2_pos((32 - cidr.length()) as nat);
    lemma_block_is_range(cidr.first() as nat, address as nat, cidr.size());
    lemma_fundamental_div_mod(cidr.first() as int, cidr.size() as int);
    lemma_fundamental_div_mod(address as int, cidr.size() as int);
}

/// A session gets the same IPv4 address from a block every time.
pub proof fn ipv4_session_keeps_its_address(
    cidr: Ipv4Cidr,
    id: (u64, u64),
    address1: u32,
    address2: u32,
)
    requires
        ipv4_assigned(cidr, Extensions::Session(id), address1),
        ipv4_assigned(cidr, Extensions::Session(id), address2),
    ensures
        address1 == address2,
{
}

/// Of a session's identifier, only the low 32 bits of the high half bear on its IPv4 address.
pub proof fn ipv4_session_number_is_32_bits(
    cidr: Ipv4Cidr,
    id1: (u64, u64),
    id2: (u64, u64),
    address1: u32,
    address2: u32,
)
    requires
        ipv4_assigned(cidr, Extensions::Session(id1), address1),
        ipv4_assigned(cidr, Extensions::Session(id2), address2),
        id1.0 as u32 == id2.0 as u32,
    ensures
        address1 == address2,
{
    let a1 = id1.0;
    let a2 = id2.0;
    assert(a1 as u32 == a1 % 0x1_0000_0000 && a2 as u32 == a2 % 0x1_0000_0000) by (bit_vector);
}

/// Two sessions share an IPv4 address of a block exactly if it has one address only, or their
/// numbers differ by a multiple of one less than its size.
pub proof fn ipv4_sessions_share_an_address(
    cidr: Ipv4Cidr,
    id1: (u64, u64),
    id2: (u64, u64),
    address1: u32,
    address2: u32,
)
    requires
        ipv4_assigned(cidr, Extensions::Session(id1), address1),
        ipv4_assigned(cidr, Extensions::Session(id2), address2),
    ensures
        address1 == address2 <==> pow2((32 - cidr.length()) as nat) == 1
            || ((id1.0 as u32) - (id2.0 as u32)) % (pow2((32 - cidr.length()) as nat) - 1) == 0,
{
    lemma_pow2_pos((32 - cidr.length()) as nat);
    lemma_ipv4_session(id1);
    lemma_ipv4_session(id2);
    if cidr.size() > 1 {
        lemma_mod_equivalence(
            ipv4_session(id1) as int,
            ipv4_session(id2) as int,
            cidr.size() - 1,
        );
    }
}

/// The number of a session picks an IPv4 address from every block. It is never the last one of
/// the block, unless it is the only one.
pub proof fn ipv4_session_has_an_address(cidr: Ipv4Cidr, id: (u64, u64)) -> (address: u32)
    requires
        cidr.wf(),
    ensures
        ipv4_assigned(cidr, Extensions::Session(id), address),
        pow2((32 - cidr.length()) as nat) > 1 ==> address + 1 < cidr.first()
            + pow2((32 - cidr.length()) as nat),
{
    let size = cidr.size();
    lemma_pow2_pos((32 - cidr.length()) as nat);
    if size > 1 {
        lemma_mod_bound(ipv4_session(id) as int, size - 1);
    }
    lemma_ipv4_block_fits(cidr);
    (cidr.first() + session_host(ipv4_session(id), size)) as u32
}

/// A block that leaves no bit to the host gives its one IPv4 address, whatever the extension.
pub proof fn ipv4_host_block_gives_its_address(
    cidr: Ipv4Cidr,
    extention: Extensions,
    address: u32,
)
    requires
        cidr.length() == 32,
        ipv4_assigned(cidr, extention, address),
    ensures
        address == cidr.first(),
{
    lemma2_to64();
}

/// An IPv4 address lies in a block exactly if it agrees with the first address of the block in
/// the leading bits.
pub proof fn ipv4_block_shares_its_prefix(cidr: Ipv4Cidr, address: u32)
    requires
        cidr.wf(),
    ensures
        cidr.contains(address) <==> cidr.first() <= address < cidr.first()
            + pow2((32 - cidr.length()) as nat),
        cidr.contains(address) <==> address as nat / pow2((32 - cidr.length()) as nat)
            == cidr.first() as nat / pow2((32 - cidr.length()) as nat),
{
    lemma_pow2_pos((32 - cidr.length()) as nat);
    lemma_block_is_range(cidr.first() as nat, address as nat, cidr.size());
}

/// Whatever the extension, the network part of an IPv4 address that is picked from a block is
/// that of the block.
pub proof fn ipv4_network_part_is_preserved(cidr: Ipv4Cidr, extention: Extensions, address: u32)
    requires
        cidr.wf(),
        ipv4_assigned(cidr, extention, address),
    ensures
        address as nat / pow2((32 - cidr.length()) as nat)
            == cidr.first() as nat / pow2((32 - cidr.length()) as nat),
{
    ipv4_block_shares_its_prefix(cidr, address);
}

/// Putting the halves of an identifier side by side makes one number of them.
proof fn lemma_ipv6_session(id: (u64, u64))
    ensures
        ipv6_session(id) == (((id.0 as u128) << 64) | (id.1 as u128)) as nat,
{
    let a = id.0;
    let b = id.1;
    assert(((a as u128) << 64) | (b as u128) == a * 0x1_0000_0000_0000_0000 + b) by (bit_vector);
}

/// An IPv6 address that is given to a connection lies in the block. Without a session it is as
/// far from the first address as a drawn random number says, modulo the number of addresses. For a
/// session it is as far as the identifier says, modulo one less than that number.
pub proof fn ipv6_address_from_a_block(cidr: Ipv6Cidr, extention: Extensions, address: u128)
    requires
        ipv6_assigned(cidr, extention, address),
    ensures
        cidr.first() <= address < cidr.first() + pow2((128 - cidr.length()) as nat),
        extention is Absent ==> exists|rand: u128| #[trigger]
            drawn_u128(rand) && address == cidr.first() + rand as nat
                % pow2((128 - cidr.length()) as nat),
        extention matches Extensions::Session((a, b)) ==> cidr.length() < 128 ==> address
            == cidr.first() + (((a as u128) << 64) | (b as u128)) as nat
                % (pow2((128 - cidr.length()) as nat) - 1) as nat,
{
    if let Extensions::Session(id) = extention {
        lemma_ipv6_session(id);
        if cidr.length() < 128 {
            lemma_pow2_strictly_increases(0, (128 - cidr.length()) as nat);
            lemma2_to64();
        }
    }
}

/// Every IPv6 address of a block can be drawn for a connection without a session: the number that
/// the address is picks it.
pub proof fn ipv6_every_address_can_be_drawn(cidr: Ipv6Cidr, address: u128)
    requires
        cidr.wf(),
        cidr.first() <= address < cidr.first() + pow2((128 - cidr.length()) as nat),
        drawn_u128(address),
    ensures
        ipv6_assigned(cidr, Extensions::Absent, address),
{
    lemma_pow2_pos((128 - cidr.length()) as nat);
    lemma_block_is_range(cidr.first() as nat, address as nat, cidr.size());
    lemma_fundamental_div_mod(cidr.first() as int, cidr.size() as int);
    lemma_fundamental_div_mod(address as int, cidr.size() as int);
}

/// A session gets the same IPv6 address from a block every time.
pub proof fn ipv6_session_keeps_its_address(
    cidr: Ipv6Cidr,
    id: (u64, u64),
    address1: u128,
    address2: u128,
)
    requires
        ipv6_assigned(cidr, Extensions::Session(id), address1),
        ipv6_assigned(cidr, Extensions::Session(id), address2),
    ensures
        address1 == address2,
{
}

/// Two sessions share an IPv6 address of a block exactly if it has one address only, or their
/// numbers differ by a multiple of one less than its size.
pub proof fn ipv6_sessions_share_an_address(
    cidr: Ipv6Cidr,
    id1: (u64, u64),
    id2: (u64, u64),
    address1: u128,
    address2: u128,
)
    requires
        ipv6_assigned(cidr, Extensions::Session(id1), address1),
        ipv6_assigned(cidr, Extensions::Session(id2), address2),
    ensures
        address1 == address2 <==> pow2((128 - cidr.length()) as nat) == 1
            || ((((id1.0 as u128) << 64) | (id1.1 as u128))
                - (((id2.0 as u128) << 64) | (id2.1 as u128)))
                % (pow2((128 - cidr.length()) as nat) - 1) == 0,
{
    lemma_pow2_pos((128 - cidr.length()) as nat);
    lemma_ipv6_session(id1);
    lemma_ipv6_session(id2);
    if cidr.size() > 1 {
        lemma_mod_equivalence(
            ipv6_session(id1) as int,
            ipv6_session(id2) as int,
            cidr.size() - 1,
        );
    }
}

/// The number of a session picks an IPv6 address from every block. It is never the last one of
/// the block, unless it is the only one.
pub proof fn ipv6_session_has_an_address(cidr: Ipv6Cidr, id: (u64, u64)) -> (address: u128)
    requires
        cidr.wf(),
    ensures
        ipv6_assigned(cidr, Extensions::Session(id), address),
        pow2((128 - cidr.length()) as nat) > 1 ==> address + 1 < cidr.first()
            + pow2((128 - cidr.length()) as nat),
{
    let size = cidr.size();
    lemma_pow2_pos((128 - cidr.length()) as nat);
    if size > 1 {
        lemma_mod_bound(ipv6_session(id) as int, size - 1);
    }
    lemma_ipv6_block_fits(cidr);
    (cidr.first() + session_host(ipv6_session(id), size)) as u128
}

/// A block that leaves no bit to the host gives its one IPv6 address, whatever the extension.
pub proof fn ipv6_host_block_gives_its_address(
    cidr: Ipv6Cidr,
    extention: Extensions,
    address: u128,
)
    requires
        cidr.length() == 128,
        ipv6_assigned(cidr, extention, address),
    ensures
        address == cidr.first(),
{
    lemma2_to64();
}

/// An IPv6 address lies in a block exactly if it agrees with the first address of the block in
/// the leading bits.
pub proof fn ipv6_block_shares_its_prefix(cidr: Ipv6Cidr, address: u128)
    requires
        cidr.wf(),
    ensures
        cidr.contains(address) <==> cidr.first() <= address < cidr.first()
            + pow2((128 - cidr.length()) as nat),
        cidr.contains(address) <==> address as nat / pow2((128 - cidr.length()) as nat)
            == cidr.first() as nat / pow2((128 - cidr.length()) as nat),
{
    lemma_pow2_pos((128 - cidr.length()) as nat);
    lemma_block_is_range(cidr.first() as nat, address as nat, cidr.size());
}

/// Whatever the extension, the network part of an IPv6 address that is picked from a block is
/// that of the block.
pub proof fn ipv6_network_part_is_preserved(cidr: Ipv6Cidr, extention: Extensions, address: u128)
    requires
        cidr.wf(),
        ipv6_assigned(cidr, extention, address),
    ensures
        address as nat / pow2((128 - cidr.length()) as nat)
            == cidr.first() as nat / pow2((128 - cidr.length()) as nat),
{
    ipv6_block_shares_its_prefix(cidr, address);
}

/// A random number picks the address of the block with its own host part, whichever of the
/// addresses the block is given by, and each of them is picked by some number: by itself, for one.
pub proof fn random_addresses_are_those_of_the_block(
    address: nat,
    other: nat,
    size: nat,
    rand: nat,
)
    requires
        size > 0,
        address / size == other / size,
    ensures
        rand_address(address, size, rand) / size == address / size,
        rand_address(address, size, rand) % size == rand % size,
        rand_address(address, size, rand) == rand_address(other, size, rand),
        rand_address(address, size, other) == other,
{
    lemma_rand_address(address, size, rand);
    lemma_fundamental_div_mod(address as int, size as int);
    lemma_fundamental_div_mod(other as int, size as int);
}

/// Two HTTP connectors for one session have the same local addresses, and one of them is the
/// address that a socket for the session is bound to when it gets an address of the block.
pub proof fn session_has_one_local_address(
    connector: Connector,
    id: (u64, u64),
    v4: Option<u32>,
    v6: Option<u128>,
    other_v4: Option<u32>,
    other_v6: Option<u128>,
    ip: IpAddr,
)
    requires
        connector.http_local(Extensions::Session(id), v4, v6),
        connector.http_local(Extensions::Session(id), other_v4, other_v6),
    ensures
        v4 == other_v4,
        v6 == other_v6,
        connector.cidr() matches Some(cidr) && (connector.fallback() matches Some(fallback) ==> (
        cidr is V4 <==> fallback is V6)) && Source::Cidr(cidr, Extensions::Session(id)).gives(
            ip,
        ) ==> match ip {
            IpAddr::V4(ip) => v4 == Some(ip),
            IpAddr::V6(ip) => v6 == Some(ip),
        },
{
}

/// The fallback address is a local address of HTTP connections, unless there is a block of its
/// family. Then there is no local address at all.
pub proof fn http_fallback_is_used_beside_the_block(
    connector: Connector,
    extention: Extensions,
    v4: Option<u32>,
    v6: Option<u128>,
    fallback: IpAddr,
)
    requires
        connector.http_local(extention, v4, v6),
        connector.fallback() == Some(fallback),
    ensures
        if connector.cidr() matches Some(cidr) && (cidr is V4 <==> fallback is V4) {
            v4 is None && v6 is None
        } else {
            match fallback {
                IpAddr::V4(ip) => v4 == Some(ip),
                IpAddr::V6(ip) => v6 == Some(ip),
            }
        },
{
}

/// Beside an IPv4 block, the fallback address may be absent or of the other family. HTTP
/// connections then have a local IPv4 address, which lies in the block. Without a session it is as
/// far from the first address as a drawn random number says, and for a session as far as its
/// identifier says. Of the other family they have the fallback address, if any.
pub proof fn http_local_address_from_an_ipv4_block(
    connector: Connector,
    extention: Extensions,
    v4: Option<u32>,
    v6: Option<u128>,
    cidr: Ipv4Cidr,
)
    requires
        connector.http_local(extention, v4, v6),
        connector.cidr() == Some(IpCidr::V4(cidr)),
        connector.fallback() matches Some(fallback) ==> fallback is V6,
    ensures
        match v4 {
            Some(address) => {
                &&& cidr.first() <= address < cidr.first() + pow2((32 - cidr.length()) as nat)
                &&& extention is Absent ==> exists|rand: u32| #[trigger]
                    drawn_u32(rand) && address == cidr.first() + rand as nat
                        % pow2((32 - cidr.length()) as nat)
                &&& extention matches Extensions::Session((a, _)) ==> cidr.length() < 32 ==> address
                    == cidr.first() + (a as u32) as nat
                        % (pow2((32 - cidr.length()) as nat) - 1) as nat
            },
            None => false,
        },
        match connector.fallback() {
            Some(IpAddr::V6(fallback)) => v6 == Some(fallback),
            _ => v6 is None,
        },
{
    ipv4_address_from_a_block(cidr, extention, v4->0);
}

/// Beside an IPv6 block, the fallback address may be absent or of the other family. HTTP
/// connections then have a local IPv6 address, which lies in the block. Without a session it is as
/// far from the first address as a drawn random number says, and for a session as far as its
/// identifier says. Of the other family they have the fallback address, if any.
pub proof fn http_local_address_from_an_ipv6_block(
    connector: Connector,
    extention: Extensions,
    v4: Option<u32>,
    v6: Option<u128>,
    cidr: Ipv6Cidr,
)
    requires
        connector.http_local(extention, v4, v6),
        connector.cidr() == Some(IpCidr::V6(cidr)),
        connector.fallback() matches Some(fallback) ==> fallback is V4,
    ensures
        match v6 {
            Some(address) => {
                &&& cidr.first() <= address < cidr.first() + pow2((128 - cidr.length()) as nat)
                &&& extention is Absent ==> exists|rand: u128| #[trigger]
                    drawn_u128(rand) && address == cidr.first() + rand as nat
                        % pow2((128 - cidr.length()) as nat)
                &&& extention matches Extensions::Session((a, b)) ==> cidr.length() < 128
                    ==> address
                    == cidr.first() + (((a as u128) << 64) | (b as u128)) as nat
                        % (pow2((128 - cidr.length()) as nat) - 1) as nat
            },
            None => false,
        },
        match connector.fallback() {
            Some(IpAddr::V4(fallback)) => v4 == Some(fallback),
            _ => v4 is None,
        },
{
    ipv6_address_from_a_block(cidr, extention, v6->0);
}

/// Without a block, the fallback address is the only local address of HTTP connections. Without
/// either they have none.
pub proof fn http_local_address_without_a_block(
    connector: Connector,
    extention: Extensions,
    v4: Option<u32>,
    v6: Option<u128>,
)
    requires
        connector.http_local(extention, v4, v6),
        connector.cidr() is None,
    ensures
        v4 is Some <==> (connector.fallback() matches Some(fallback) && fallback is V4),
        v6 is Some <==> (connector.fallback() matches Some(fallback) && fallback is V6),
        v4 matches Some(v4) ==> connector.fallback() == Some(IpAddr::V4(v4)),
        v6 matches Some(v6) ==> connector.fallback() == Some(IpAddr::V6(v6)),
{
}

/// A socket address holds the host and the port it was made of, and nothing else.
pub proof fn socket_address_holds_its_parts(ip: IpAddr, port: u16)
    ensures
        SocketAddr::of(ip, port).ip() == ip,
        match (ip, SocketAddr::of(ip, port)) {
            (IpAddr::V4(v4), SocketAddr::V4(addr)) => addr.ip == v4 && addr.port == port,
            (IpAddr::V6(v6), SocketAddr::V6(addr)) => addr.ip == v6 && addr.port == port
                && addr.flowinfo == 0 && addr.scope_id == 0,
            _ => false,
        },
{
}

/// The family of an address, or of a block, is the version of the protocol it is written in.
pub proof fn family_is_the_version(ip: IpAddr, cidr: IpCidr)
    ensures
        ip.family() is V4 <==> ip is V4,
        cidr.family() is V4 <==> cidr is V4,
{
}

/// To connect from a block, a socket of the version of the block is opened. The block, what the
/// client asked for and the target are kept for later.
pub proof fn block_opens_a_socket_of_its_version<K, S, E>(
    cidr: IpCidr,
    extention: Extensions,
    then_connect: Connecting,
)
    ensures
        match cidr_step::<K, S, E>(cidr, extention, then_connect) {
            Step::Open(family, opening) => {
                &&& family is V4 <==> cidr is V4
                &&& opening.source == Source::Cidr(cidr, extention)
                &&& opening.then_connect == then_connect
            },
            _ => false,
        },
{
}

/// To connect from the fallback address, a socket of its version is opened. The address and the
/// target are kept for later, and there is no further address to fall back to.
pub proof fn fallback_opens_a_socket_of_its_version<K, S, E>(target: SocketAddr, fallback: IpAddr)
    ensures
        match fallback_step::<K, S, E>(target, fallback) {
            Step::Open(family, opening) => {
                &&& family is V4 <==> fallback is V4
                &&& opening.source == Source::Fallback(fallback)
                &&& opening.then_connect.target == target
                &&& opening.then_connect.fallback is None
            },
            _ => false,
        },
{
}

/// A socket that was opened for the fallback address is bound to that very address, on a port that
/// the system picks.
pub proof fn opened_socket_is_bound_to_the_fallback<K, S, E>(
    opening: Opening,
    socket: K,
    step: Step<K, S, E>,
    fallback: IpAddr,
)
    requires
        opening.source == Source::Fallback(fallback),
        opening.leads_to(Ok(socket), step),
    ensures
        match (fallback, step) {
            (IpAddr::V4(v4), Step::Bind(bound, SocketAddr::V4(local), binding)) => {
                &&& bound == socket
                &&& local.ip == v4
                &&& local.port == 0
                &&& binding.then_connect == opening.then_connect
            },
            (IpAddr::V6(v6), Step::Bind(bound, SocketAddr::V6(local), binding)) => {
                &&& bound == socket
                &&& local.ip == v6
                &&& local.port == 0
                &&& local.flowinfo == 0
                &&& local.scope_id == 0
                &&& binding.then_connect == opening.then_connect
            },
            _ => false,
        },
{
}

/// A socket that was opened for a block is bound to an address of the block, on a port that the
/// system picks. Without a session the address is as far from the first one as a drawn random
/// number says, and for a session as far as its identifier says.
pub proof fn opened_socket_is_bound_in_the_block<K, S, E>(
    opening: Opening,
    socket: K,
    step: Step<K, S, E>,
    cidr: IpCidr,
    extention: Extensions,
)
    requires
        opening.source == Source::Cidr(cidr, extention),
        opening.leads_to(Ok(socket), step),
    ensures
        match (cidr, step) {
            (IpCidr::V4(cidr), Step::Bind(bound, SocketAddr::V4(local), binding)) => {
                &&& bound == socket
                &&& cidr.first() <= local.ip < cidr.first() + pow2((32 - cidr.length()) as nat)
                &&& extention is Absent ==> exists|rand: u32| #[trigger]
                    drawn_u32(rand) && local.ip == cidr.first() + rand as nat
                        % pow2((32 - cidr.length()) as nat)
                &&& extention matches Extensions::Session((a, _)) ==> cidr.length() < 32
                    ==> local.ip
                    == cidr.first() + (a as u32) as nat
                        % (pow2((32 - cidr.length()) as nat) - 1) as nat
                &&& local.port == 0
                &&& binding.then_connect == opening.then_connect
            },
            (IpCidr::V6(cidr), Step::Bind(bound, SocketAddr::V6(local), binding)) => {
                &&& bound == socket
                &&& cidr.first() <= local.ip < cidr.first() + pow2((128 - cidr.length()) as nat)
                &&& extention is Absent ==> exists|rand: u128| #[trigger]
                    drawn_u128(rand) && local.ip == cidr.first() + rand as nat
                        % pow2((128 - cidr.length()) as nat)
                &&& extention matches Extensions::Session((a, b)) ==> cidr.length() < 128
                    ==> local.ip
                    == cidr.first() + (((a as u128) << 64) | (b as u128)) as nat
                        % (pow2((128 - cidr.length()) as nat) - 1) as nat
                &&& local.port == 0
                &&& local.flowinfo == 0
                &&& local.scope_id == 0
                &&& binding.then_connect == opening.then_connect
            },
            _ => false,
        },
{
    match (cidr, step->Bind_1) {
        (IpCidr::V4(cidr), SocketAddr::V4(local)) => ipv4_address_from_a_block(
            cidr,
            extention,
            local.ip,
        ),
        (IpCidr::V6(cidr), SocketAddr::V6(local)) => ipv6_address_from_a_block(
            cidr,
            extention,
            local.ip,
        ),
        _ => {},
    }
}

/// A bound socket is connected to the target. A socket that could not be opened or bound is the end
/// of it, and the error is returned.
pub proof fn bound_socket_is_connected_to_the_target<K, S, E>(
    opening: Opening,
    binding: Binding,
    socket: K,
    err: E,
    step: Step<K, S, E>,
)
    requires
        opening.leads_to(Err(err), step),
    ensures
        step == Step::<K, S, E>::Done(Err(err)),
        binding.next::<K, S, E>(Err(err)) == Step::<K, S, E>::Done(Err(err)),
        binding.next::<K, S, E>(Ok(socket)) == Step::<K, S, E>::Connect(
            socket,
            binding.then_connect.target,
            binding.then_connect,
        ),
{
}

/// A stream is returned. An error is returned where there is no address to fall back to. Where
/// there is one, a socket of its version is opened for it and for the same target, and nothing is
/// left to fall back to.
pub proof fn failed_connection_is_tried_again_from_the_fallback<K, S, E>(
    connecting: Connecting,
    stream: S,
    err: E,
)
    ensures
        connecting.next::<K, S, E>(Ok(stream)) == Step::<K, S, E>::Done(Ok(stream)),
        match (connecting.fallback, connecting.next::<K, S, E>(Err(err))) {
            (None, next) => next == Step::<K, S, E>::Done(Err(err)),
            (Some(fallback), Step::Open(family, opening)) => {
                &&& family is V4 <==> fallback is V4
                &&& opening.source == Source::Fallback(fallback)
                &&& opening.then_connect.target == connecting.target
                &&& opening.then_connect.fallback is None
            },
            _ => false,
        },
{
}

/// What came of a step.
pub enum Outcome<K, S, E> {
    /// A socket was opened or bound, or could not be.
    Socket(Result<K, E>),
    /// A connection was made, or could not be.
    Stream(Result<S, E>),
}

/// Whether a step may be followed by another one, given what came of it.
pub open spec fn follows<K, S, E>(
    step: Step<K, S, E>,
    outcome: Outcome<K, S, E>,
    next: Step<K, S, E>,
) -> bool {
    match (step, outcome) {
        (Step::Open(_, opening), Outcome::Socket(socket)) => opening.leads_to(socket, next),
        (Step::Bind(_, _, binding), Outcome::Socket(socket)) => next == binding.next::<K, S, E>(
            socket,
        ),
        (Step::Connect(_, _, connecting), Outcome::Stream(stream)) => next == connecting.next::<
            K,
            S,
            E,
        >(stream),
        (Step::ConnectUnbound(_, connecting), Outcome::Stream(stream)) => next == connecting.next::<
            K,
            S,
            E,
        >(stream),
        _ => false,
    }
}

/// Whether these steps are a run of the connector towards an address, and these what came of all
/// steps but the last.
pub open spec fn is_run<K, S, E>(
    connector: Connector,
    addr: SocketAddr,
    extention: Extensions,
    steps: Seq<Step<K, S, E>>,
    outcomes: Seq<Outcome<K, S, E>>,
) -> bool {
    &&& steps.len() == outcomes.len() + 1
    &&& steps[0] == connector.first_step::<K, S, E>(addr, extention)
    &&& forall|i: int|
        0 <= i < outcomes.len() ==> follows(#[trigger] steps[i], outcomes[i], steps[i + 1])
}

/// The local address that the sockets of a run come to be bound to, before and after a connection
/// failed.
pub open spec fn source_of(connector: Connector, extention: Extensions, again: bool) -> Option<
    Source,
> {
    match (connector.cidr(), connector.fallback()) {
        (Some(cidr), _) if !again => Some(Source::Cidr(cidr, extention)),
        (_, Some(fallback)) => Some(Source::Fallback(fallback)),
        _ => None,
    }
}

/// Whether a step that is not the end of a run may be the `i`-th one.
spec fn shape<K, S, E>(
    connector: Connector,
    addr: SocketAddr,
    extention: Extensions,
    i: int,
    step: Step<K, S, E>,
) -> bool {
    let again = i >= 3;
    let fallback = if connector.cidr() is Some && !again {
        connector.fallback()
    } else {
        None
    };
    let then_connect = Connecting { target: addr, fallback };
    &&& i < 6
    &&& again ==> connector.cidr() is Some && connector.fallback() is Some
    &&& match source_of(connector, extention, again) {
        Some(source) => {
            if i % 3 == 0 {
                &&& step matches Step::Open(family, opening)
                &&& family == source_family(source)
                &&& opening == Opening { source, then_connect }
            } else if i % 3 == 1 {
                &&& step matches Step::Bind(_, local, binding)
                &&& exists|ip: IpAddr| #[trigger]
                    source.gives(ip) && local == SocketAddr::of(ip, 0)
                &&& binding == Binding { then_connect }
            } else {
                &&& step matches Step::Connect(_, target, connecting)
                &&& target == addr
                &&& connecting == then_connect
            }
        },
        None => {
            &&& i == 0
            &&& step matches Step::ConnectUnbound(target, connecting)
            &&& target == addr
            &&& connecting == then_connect
        },
    }
}

/// The family of the addresses of a source.
pub open spec fn source_family(source: Source) -> Family {
    match source {
        Source::Cidr(cidr, _) => cidr.family(),
        Source::Fallback(ip) => ip.family(),
    }
}

/// Every step of a run but the last has the shape of its place.
proof fn lemma_run_shape<K, S, E>(
    connector: Connector,
    addr: SocketAddr,
    extention: Extensions,
    steps: Seq<Step<K, S, E>>,
    outcomes: Seq<Outcome<K, S, E>>,
    i: int,
)
    requires
        is_run(connector, addr, extention, steps, outcomes),
        0 <= i < steps.len(),
    ensures
        steps[i] is Done || shape(connector, addr, extention, i, steps[i]),
        i < outcomes.len() ==> steps[i] !is Done,
    decreases i,
{
    if i > 0 {
        lemma_run_shape(connector, addr, extention, steps, outcomes, i - 1);
        assert(follows(steps[i - 1], outcomes[i - 1], steps[i - 1 + 1]));
    }
    if i < outcomes.len() {
        assert(follows(steps[i], outcomes[i], steps[i + 1]));
    }
}

/// A run is over after six steps at the latest: two sockets are opened, bound and connected.
pub proof fn run_is_short<K, S, E>(
    connector: Connector,
    addr: SocketAddr,
    extention: Extensions,
    steps: Seq<Step<K, S, E>>,
    outcomes: Seq<Outcome<K, S, E>>,
)
    requires
        is_run(connector, addr, extention, steps, outcomes),
    ensures
        outcomes.len() <= 6,
        outcomes.len() == 6 ==> steps[6] is Done,
{
    if outcomes.len() >= 6 {
        lemma_run_shape(connector, addr, extention, steps, outcomes, 6);
    }
}

/// All connections of a run are to the address it is for.
pub proof fn run_connects_to_its_address<K, S, E>(
    connector: Connector,
    addr: SocketAddr,
    extention: Extensions,
    steps: Seq<Step<K, S, E>>,
    outcomes: Seq<Outcome<K, S, E>>,
    i: int,
)
    requires
        is_run(connector, addr, extention, steps, outcomes),
        0 <= i < steps.len(),
    ensures
        match steps[i] {
            Step::Connect(_, target, _) => target == addr,
            Step::ConnectUnbound(target, _) => target == addr && i == 0 && connector.cidr() is None
                && connector.fallback() is None,
            _ => true,
        },
{
    lemma_run_shape(connector, addr, extention, steps, outcomes, i);
}

/// A socket is bound to an address of the block, or to the fallback address where there is no
/// block or a connection from it failed. The port is left to the system, and the socket was
/// opened for the family of the address.
pub proof fn run_binds_to_its_source<K, S, E>(
    connector: Connector,
    addr: SocketAddr,
    extention: Extensions,
    steps: Seq<Step<K, S, E>>,
    outcomes: Seq<Outcome<K, S, E>>,
    i: int,
)
    requires
        is_run(connector, addr, extention, steps, outcomes),
        0 <= i < steps.len(),
        steps[i] is Bind,
    ensures
        i == 1 || i == 4,
        steps[i - 1] matches Step::Open(family, _) && family == steps[i]->Bind_1.ip().family(),
        source_of(connector, extention, i == 4) matches Some(source) && source.gives(
            steps[i]->Bind_1.ip(),
        ),
        steps[i]->Bind_1 == SocketAddr::of(steps[i]->Bind_1.ip(), 0),
{
    lemma_run_shape(connector, addr, extention, steps, outcomes, i);
    lemma_run_shape(connector, addr, extention, steps, outcomes, i - 1);
    assert(follows(steps[i - 1], outcomes[i - 1], steps[i - 1 + 1]));
}

/// Sockets are bound to the fallback address itself where there is no block, and after a connection
/// from the block failed.
pub proof fn run_binds_to_the_fallback<K, S, E>(
    connector: Connector,
    addr: SocketAddr,
    extention: Extensions,
    steps: Seq<Step<K, S, E>>,
    outcomes: Seq<Outcome<K, S, E>>,
    i: int,
)
    requires
        is_run(connector, addr, extention, steps, outcomes),
        0 <= i < steps.len(),
        steps[i] is Bind,
        i == 4 || connector.cidr() is None,
    ensures
        match (connector.fallback(), steps[i]->Bind_1) {
            (Some(IpAddr::V4(v4)), SocketAddr::V4(local)) => local.ip == v4 && local.port == 0,
            (Some(IpAddr::V6(v6)), SocketAddr::V6(local)) => local.ip == v6 && local.port == 0
                && local.flowinfo == 0 && local.scope_id == 0,
            _ => false,
        },
{
    lemma_run_shape(connector, addr, extention, steps, outcomes, i);
    lemma_run_shape(connector, addr, extention, steps, outcomes, i - 1);
    assert(follows(steps[i - 1], outcomes[i - 1], steps[i - 1 + 1]));
    opened_socket_is_bound_to_the_fallback(
        steps[i - 1]->Open_1,
        steps[i]->Bind_0,
        steps[i],
        connector.fallback()->0,
    );
}

/// Where there is a block, the first socket is bound to an address that lies in it. Without a
/// session the address is as far from the first one as a drawn random number says, and for a
/// session as far as its identifier says.
pub proof fn run_binds_in_the_block<K, S, E>(
    connector: Connector,
    addr: SocketAddr,
    extention: Extensions,
    steps: Seq<Step<K, S, E>>,
    outcomes: Seq<Outcome<K, S, E>>,
    cidr: IpCidr,
)
    requires
        is_run(connector, addr, extention, steps, outcomes),
        connector.cidr() == Some(cidr),
        steps.len() > 1,
        steps[1] is Bind,
    ensures
        match (cidr, steps[1]->Bind_1) {
            (IpCidr::V4(cidr), SocketAddr::V4(local)) => {
                &&& cidr.first() <= local.ip < cidr.first() + pow2((32 - cidr.length()) as nat)
                &&& extention is Absent ==> exists|rand: u32| #[trigger]
                    drawn_u32(rand) && local.ip == cidr.first() + rand as nat
                        % pow2((32 - cidr.length()) as nat)
                &&& extention matches Extensions::Session((a, _)) ==> cidr.length() < 32
                    ==> local.ip
                    == cidr.first() + (a as u32) as nat
                        % (pow2((32 - cidr.length()) as nat) - 1) as nat
                &&& local.port == 0
            },
            (IpCidr::V6(cidr), SocketAddr::V6(local)) => {
                &&& cidr.first() <= local.ip < cidr.first() + pow2((128 - cidr.length()) as nat)
                &&& extention is Absent ==> exists|rand: u128| #[trigger]
                    drawn_u128(rand) && local.ip == cidr.first() + rand as nat
                        % pow2((128 - cidr.length()) as nat)
                &&& extention matches Extensions::Session((a, b)) ==> cidr.length() < 128
                    ==> local.ip
                    == cidr.first() + (((a as u128) << 64) | (b as u128)) as nat
                        % (pow2((128 - cidr.length()) as nat) - 1) as nat
                &&& local.port == 0
                &&& local.flowinfo == 0
                &&& local.scope_id == 0
            },
            _ => false,
        },
{
    lemma_run_shape(connector, addr, extention, steps, outcomes, 0);
    assert(follows(steps[0], outcomes[0], steps[1]));
    opened_socket_is_bound_in_the_block(
        steps[0]->Open_1,
        steps[1]->Bind_0,
        steps[1],
        cidr,
        extention,
    );
}

/// A run starts with a socket of the version of the block, or of the fallback address where there
/// is no block. Where there is neither, it connects to its address at once. A socket that is opened
/// later is of the version of the fallback address.
pub proof fn run_opens_sockets_of_the_right_version<K, S, E>(
    connector: Connector,
    addr: SocketAddr,
    extention: Extensions,
    steps: Seq<Step<K, S, E>>,
    outcomes: Seq<Outcome<K, S, E>>,
    i: int,
)
    requires
        is_run(connector, addr, extention, steps, outcomes),
        0 < i < steps.len(),
    ensures
        match (connector.cidr(), connector.fallback(), steps[0]) {
            (Some(cidr), _, Step::Open(family, _)) => family is V4 <==> cidr is V4,
            (None, Some(fallback), Step::Open(family, _)) => family is V4 <==> fallback is V4,
            (None, None, Step::ConnectUnbound(target, _)) => target == addr,
            _ => false,
        },
        steps[i] matches Step::Open(family, _) ==> i == 3 && (connector.fallback() matches Some(
            fallback,
        ) && (family is V4 <==> fallback is V4)),
{
    lemma_run_shape(connector, addr, extention, steps, outcomes, i);
}

/// What a run does next, given what came of its step. An opened socket is bound, a bound socket is
/// connected to the address of the run, and a stream is returned. An error is returned too, unless
/// it is that of a connection from the block and there is a fallback address.
pub proof fn run_goes_on_as_its_outcomes_say<K, S, E>(
    connector: Connector,
    addr: SocketAddr,
    extention: Extensions,
    steps: Seq<Step<K, S, E>>,
    outcomes: Seq<Outcome<K, S, E>>,
    i: int,
)
    requires
        is_run(connector, addr, extention, steps, outcomes),
        0 <= i < outcomes.len(),
    ensures
        match (steps[i], outcomes[i]) {
            (Step::Open(_, _), Outcome::Socket(Ok(socket))) => {
                &&& steps[i + 1] matches Step::Bind(bound, _, _)
                &&& bound == socket
            },
            (Step::Bind(_, _, _), Outcome::Socket(Ok(socket))) => {
                &&& steps[i + 1] matches Step::Connect(connected, target, _)
                &&& connected == socket
                &&& target == addr
            },
            (Step::Open(_, _), Outcome::Socket(Err(err))) => steps[i + 1] == Step::<K, S, E>::Done(
                Err(err),
            ),
            (Step::Bind(_, _, _), Outcome::Socket(Err(err))) => steps[i + 1] == Step::<
                K,
                S,
                E,
            >::Done(Err(err)),
            (Step::Connect(_, _, _), Outcome::Stream(Err(err))) => if i == 2
                && connector.cidr() is Some
                && connector.fallback() is Some {
                steps[i + 1] is Open
            } else {
                steps[i + 1] == Step::<K, S, E>::Done(Err(err))
            },
            (Step::Connect(_, _, _), Outcome::Stream(Ok(stream))) => steps[i + 1] == Step::<
                K,
                S,
                E,
            >::Done(Ok(stream)),
            (Step::ConnectUnbound(_, _), Outcome::Stream(stream)) => steps[i + 1] == Step::<
                K,
                S,
                E,
            >::Done(stream),
            _ => false,
        },
{
    lemma_run_shape(connector, addr, extention, steps, outcomes, i);
    assert(follows(steps[i], outcomes[i], steps[i + 1]));
}

/// The socket that is connected is the one that the caller handed back as bound, and the socket
/// that is bound is the one that the caller handed over as opened.
pub proof fn run_keeps_its_socket<K, S, E>(
    connector: Connector,
    addr: SocketAddr,
    extention: Extensions,
    steps: Seq<Step<K, S, E>>,
    outcomes: Seq<Outcome<K, S, E>>,
    i: int,
)
    requires
        is_run(connector, addr, extention, steps, outcomes),
        0 <= i < steps.len(),
    ensures
        match steps[i] {
            Step::Bind(socket, _, _) => i > 0 && steps[i - 1] is Open && outcomes[i - 1]
                == Outcome::<K, S, E>::Socket(Ok(socket)),
            Step::Connect(socket, _, _) => i > 0 && steps[i - 1] is Bind && outcomes[i - 1]
                == Outcome::<K, S, E>::Socket(Ok(socket)),
            _ => true,
        },
{
    if i > 0 {
        assert(follows(steps[i - 1], outcomes[i - 1], steps[i - 1 + 1]));
    }
}

/// What a run returns is what came of its last step: the stream of a connection, or an error.
pub proof fn run_returns_its_last_outcome<K, S, E>(
    connector: Connector,
    addr: SocketAddr,
    extention: Extensions,
    steps: Seq<Step<K, S, E>>,
    outcomes: Seq<Outcome<K, S, E>>,
    result: Result<S, E>,
)
    requires
        is_run(connector, addr, extention, steps, outcomes),
        steps.last() == Step::<K, S, E>::Done(result),
    ensures
        outcomes.len() > 0,
        match outcomes.last() {
            Outcome::Socket(Ok(_)) => false,
            Outcome::Socket(Err(err)) => result == Err::<S, E>(err),
            Outcome::Stream(stream) => result == stream,
        },
{
    let n = outcomes.len() as int;
    lemma_run_shape(connector, addr, extention, steps, outcomes, n);
    if n > 0 {
        assert(follows(steps[n - 1], outcomes[n - 1], steps[n - 1 + 1]));
    }
}

/// A second socket is opened exactly if there are a block and a fallback address and the
/// connection from the block failed. It is then bound to the fallback address. That a socket
/// cannot be opened or bound is no reason to fall back.
pub proof fn run_falls_back_after_a_failed_connection<K, S, E>(
    connector: Connector,
    addr: SocketAddr,
    extention: Extensions,
    steps: Seq<Step<K, S, E>>,
    outcomes: Seq<Outcome<K, S, E>>,
    i: int,
)
    requires
        is_run(connector, addr, extention, steps, outcomes),
        0 <= i < outcomes.len(),
    ensures
        steps[i + 1] is Open <==> {
            &&& i == 2
            &&& connector.cidr() is Some
            &&& connector.fallback() is Some
            &&& outcomes[i] matches Outcome::Stream(Err(_))
        },
        steps[i + 1] is Open ==> steps[i + 1] == fallback_step::<K, S, E>(
            addr,
            connector.fallback()->0,
        ),
{
    lemma_run_shape(connector, addr, extention, steps, outcomes, i);
    lemma_run_shape(connector, addr, extention, steps, outcomes, i + 1);
    assert(follows(steps[i], outcomes[i], steps[i + 1]));
}

/// Whether these are the steps towards a domain with these addresses, and these what came of all
/// steps but the last.
pub open spec fn is_domain_run<K, S, E>(
    connector: Connector,
    targets: Seq<SocketAddr>,
    extention: Extensions,
    steps: Seq<DomainStep<K, S, E>>,
    outcomes: Seq<Result<S, E>>,
) -> bool {
    &&& steps.len() == outcomes.len() + 1
    &&& connector.domain_start(Ok(targets), extention, steps[0])
    &&& forall|i: int|
        0 <= i < outcomes.len() ==> {
            &&& #[trigger] steps[i] matches DomainStep::Try(_, _, rest)
            &&& rest@.after(outcomes[i], steps[i + 1])
        }
}

/// The state after `i` addresses were tried in vain: the addresses behind them, and the last error.
spec fn domain_state<S, E>(
    connector: Connector,
    targets: Seq<SocketAddr>,
    extention: Extensions,
    outcomes: Seq<Result<S, E>>,
    i: int,
) -> DomainState<E> {
    DomainState {
        connector,
        extention,
        remaining: targets.skip(i),
        last_err: if i == 0 {
            None
        } else {
            Some(outcomes[i - 1]->Err_0)
        },
    }
}

/// A stream ends the run and is returned.
#[verifier::spinoff_prover]
proof fn lemma_stream_ends_domain_run<K, S, E>(
    connector: Connector,
    targets: Seq<SocketAddr>,
    extention: Extensions,
    steps: Seq<DomainStep<K, S, E>>,
    outcomes: Seq<Result<S, E>>,
    i: int,
)
    requires
        is_domain_run(connector, targets, extention, steps, outcomes),
        0 <= i < outcomes.len(),
        outcomes[i] is Ok,
    ensures
        i + 1 == outcomes.len(),
        steps[i + 1] == DomainStep::<K, S, E>::Done(Ok(outcomes[i]->Ok_0)),
{
    assert(steps[i] is Try);
    if i + 1 < outcomes.len() {
        assert(steps[i + 1] is Try);
    }
}

/// In a state that an address is tried in, that is the first one left, and its failure leads to
/// the state behind it.
#[verifier::spinoff_prover]
proof fn lemma_domain_state_advances<K, S, E>(
    connector: Connector,
    targets: Seq<SocketAddr>,
    extention: Extensions,
    outcomes: Seq<Result<S, E>>,
    i: int,
    step: DomainStep<K, S, E>,
    next: DomainStep<K, S, E>,
)
    requires
        0 <= i <= targets.len(),
        domain_state(connector, targets, extention, outcomes, i).leads_to(step),
        step matches DomainStep::Try(_, _, rest) && rest@.after(outcomes[i], next),
        outcomes[i] is Err,
    ensures
        i < targets.len(),
        domain_state(connector, targets, extention, outcomes, i + 1).leads_to(next),
{
    assert(targets.skip(i).len() > 0);
    assert(targets.skip(i).drop_first() =~= targets.skip(i + 1));
}

/// While no address could be connected to, a run is in the state of the addresses it tried.
#[verifier::spinoff_prover]
proof fn lemma_domain_run<K, S, E>(
    connector: Connector,
    targets: Seq<SocketAddr>,
    extention: Extensions,
    steps: Seq<DomainStep<K, S, E>>,
    outcomes: Seq<Result<S, E>>,
    i: int,
)
    requires
        is_domain_run(connector, targets, extention, steps, outcomes),
        0 <= i < steps.len(),
        i > 0 ==> outcomes[i - 1] is Err,
    ensures
        i <= targets.len(),
        domain_state(connector, targets, extention, outcomes, i).leads_to(steps[i]),
    decreases i,
{
    if i == 0 {
        assert(targets.skip(0) =~= targets);
    } else {
        if i > 1 && outcomes[i - 2] is Ok {
            lemma_stream_ends_domain_run(connector, targets, extention, steps, outcomes, i - 2);
        }
        lemma_domain_run(connector, targets, extention, steps, outcomes, i - 1);
        assert(steps[i - 1] is Try);
        lemma_domain_state_advances(
            connector,
            targets,
            extention,
            outcomes,
            i - 1,
            steps[i - 1],
            steps[i],
        );
    }
}

/// The addresses of a domain are tried in order, each as a single address is.
pub proof fn domain_addresses_are_tried_in_order<K, S, E>(
    connector: Connector,
    targets: Seq<SocketAddr>,
    extention: Extensions,
    steps: Seq<DomainStep<K, S, E>>,
    outcomes: Seq<Result<S, E>>,
    i: int,
)
    requires
        is_domain_run(connector, targets, extention, steps, outcomes),
        0 <= i < outcomes.len(),
    ensures
        i < targets.len(),
        steps[i] matches DomainStep::Try(target, first, _) && target == targets[i] && first
            == connector.first_step::<K, S, E>(targets[i], extention),
{
    if i > 0 && outcomes[i - 1] is Ok {
        lemma_stream_ends_domain_run(connector, targets, extention, steps, outcomes, i - 1);
    }
    lemma_domain_run(connector, targets, extention, steps, outcomes, i);
    assert(steps[i] is Try);
}

/// The first address that can be connected to ends the search, and its stream is returned. If
/// there is none, all addresses are tried and the error of the last one is returned. If the domain
/// has no address, the error says so.
pub proof fn domain_result<K, S, E>(
    connector: Connector,
    targets: Seq<SocketAddr>,
    extention: Extensions,
    steps: Seq<DomainStep<K, S, E>>,
    outcomes: Seq<Result<S, E>>,
    result: Result<S, DomainError<E>>,
)
    requires
        is_domain_run(connector, targets, extention, steps, outcomes),
        steps.last() == DomainStep::<K, S, E>::Done(result),
    ensures
        forall|i: int| 0 <= i < outcomes.len() - 1 ==> #[trigger] outcomes[i] is Err,
        match result {
            Ok(stream) => outcomes.len() > 0 && outcomes.last() == Ok::<S, E>(stream),
            Err(DomainError::Failed(err)) => outcomes.len() == targets.len() && targets.len() > 0
                && outcomes.last() == Err::<S, E>(err),
            Err(DomainError::NoAddress) => targets.len() == 0,
        },
{
    let n = outcomes.len() as int;
    assert forall|i: int| 0 <= i < n - 1 implies #[trigger] outcomes[i] is Err by {
        if outcomes[i] is Ok {
            lemma_stream_ends_domain_run(connector, targets, extention, steps, outcomes, i);
        }
    }
    if n > 0 && outcomes[n - 1] is Ok {
        lemma_stream_ends_domain_run(connector, targets, extention, steps, outcomes, n - 1);
    } else {
        lemma_domain_run(connector, targets, extention, steps, outcomes, n);
    }
}

/// The first stream ends the search, and it is returned.
pub proof fn domain_run_ends_with_a_stream<K, S, E>(
    connector: Connector,
    targets: Seq<SocketAddr>,
    extention: Extensions,
    steps: Seq<DomainStep<K, S, E>>,
    outcomes: Seq<Result<S, E>>,
    i: int,
    stream: S,
)
    requires
        is_domain_run(connector, targets, extention, steps, outcomes),
        0 <= i < outcomes.len(),
        outcomes[i] == Ok::<S, E>(stream),
    ensures
        i + 1 == outcomes.len(),
        steps[i + 1] == DomainStep::<K, S, E>::Done(Ok(stream)),
{
    lemma_stream_ends_domain_run(connector, targets, extention, steps, outcomes, i);
}

/// As long as no address could be connected to, the next one is tried if there is one left. Once
/// there is none, the error of the last one is returned, or that there was none.
pub proof fn domain_run_goes_on_until_the_last_address<K, S, E>(
    connector: Connector,
    targets: Seq<SocketAddr>,
    extention: Extensions,
    steps: Seq<DomainStep<K, S, E>>,
    outcomes: Seq<Result<S, E>>,
    i: int,
)
    requires
        is_domain_run(connector, targets, extention, steps, outcomes),
        0 <= i < steps.len(),
        i > 0 ==> outcomes[i - 1] is Err,
    ensures
        i <= targets.len(),
        match steps[i] {
            DomainStep::Try(target, _, _) => i < targets.len() && target == targets[i],
            DomainStep::Done(Err(DomainError::Failed(err))) => i == targets.len() && i > 0
                && outcomes[i - 1] == Err::<S, E>(err),
            DomainStep::Done(Err(DomainError::NoAddress)) => i == 0 && targets.len() == 0,
            DomainStep::Done(Ok(_)) => false,
        },
{
    lemma_domain_run(connector, targets, extention, steps, outcomes, i);
}

/// If the domain cannot be looked up, nothing is tried and the error is returned.
pub proof fn failed_lookup_is_returned<K, S, E>(
    connector: Connector,
    extention: Extensions,
    err: E,
    step: DomainStep<K, S, E>,
)
    requires
        connector.domain_start(Err(err), extention, step),
    ensures
        step == DomainStep::<K, S, E>::Done(Err(DomainError::Failed(err))),
{
}

} // verus!
