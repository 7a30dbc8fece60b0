//! Picking an address from a block.

use crate::bits::{
    lemma_block_is_range, lemma_u128_join, lemma_u128_pow2, lemma_u128_replace_host,
    lemma_u128_width, lemma_u32_join, lemma_u32_pow2, lemma_u32_replace_host, lemma_u32_width,
};
use crate::extension::Extensions;
use crate::network::{Ipv4Cidr, Ipv6Cidr};
use rand::Rng;
use vstd::arithmetic::div_mod::{
    lemma_fundamental_div_mod, lemma_fundamental_div_mod_converse, lemma_small_mod,
};
use vstd::arithmetic::power2::{lemma2_to64, lemma_pow2_pos, pow2};
use vstd::prelude::*;

verus! {

/// A random number picks an address from the block.
pub proof fn lemma_rand_address(address: nat, size: nat, rand: nat)
    requires
        size > 0,
    ensures
        rand_address(address, size, rand) / size == address / size,
        rand_address(address, size, rand) % size == rand % size,
{
    lemma_fundamental_div_mod(address as int, size as int);
    assert(size * (address / size) == (address / size) * size) by (nonlinear_arith);
    lemma_fundamental_div_mod_converse(
        rand_address(address, size, rand) as int,
        size as int,
        (address / size) as int,
        (rand % size) as int,
    );
}

/// `rand::Rng::gen` on `rand::thread_rng()`, for a 32-bit number. Nothing is said of the number:
/// it is random. The call panics if the system has no entropy to seed the generator with.
#[verifier::external_body]
fn random_u32() -> u32 {
    rand::thread_rng().gen()
}

/// Whether a 32-bit number is one that the random number generator may give.
pub closed spec fn drawn_u32(rand: u32) -> bool {
    call_ensures(random_u32, (), rand)
}

/// A 32-bit number counts as drawn only if the call of the generator can return it.
proof fn drawn_u32_comes_from_the_generator(rand: u32)
    requires
        drawn_u32(rand),
    ensures
        call_ensures(random_u32, (), rand),
{
}

/// `rand::Rng::gen` on `rand::thread_rng()`, for a 128-bit number. Nothing is said of the number:
/// it is random. The call panics if the system has no entropy to seed the generator with.
#[verifier::external_body]
fn random_u128() -> u128 {
    rand::thread_rng().gen()
}

/// Whether a 128-bit number is one that the random number generator may give.
pub closed spec fn drawn_u128(rand: u128) -> bool {
    call_ensures(random_u128, (), rand)
}

/// A 128-bit number counts as drawn only if the call of the generator can return it.
proof fn drawn_u128_comes_from_the_generator(rand: u128)
    requires
        drawn_u128(rand),
    ensures
        call_ensures(random_u128, (), rand),
{
}

/// The host part that a session with this number gets among `size` addresses: the number modulo
/// one less than `size`, and none where there is one address only.
pub open spec fn session_host(number: nat, size: nat) -> nat {
    if size > 1 {
        number % (size - 1) as nat
    } else {
        0
    }
}

/// The address in the block of `address` with `size` addresses that a random number picks.
pub open spec fn rand_address(address: nat, size: nat, rand: nat) -> nat {
    (address - address % size + rand % size) as nat
}

/// The number of a session among IPv4 addresses: the low half of the high half of its identifier.
pub open spec fn ipv4_session(id: (u64, u64)) -> nat {
    id.0 as nat % 0x1_0000_0000
}

/// Whether an IPv4 address may be given to a connection with this extension. It lies in the
/// block. The host part of a session's address is determined by its identifier. That of any other
/// is what the low bits of a drawn random number give.
pub open spec fn ipv4_assigned(cidr: Ipv4Cidr, extention: Extensions, address: u32) -> bool {
    &&& cidr.contains(address)
    &&& match extention {
        Extensions::Session(id) => address == cidr.first() + session_host(
            ipv4_session(id),
            cidr.size(),
        ),
        Extensions::Absent => exists|rand: u32| #[trigger]
            drawn_u32(rand) && address == cidr.first() + rand as nat % cidr.size(),
    }
}

/// Returns one less than the number of values of `host_bits` bits.
fn ipv4_capacity(host_bits: u8) -> (res: u32)
    requires
        host_bits <= 32,
    ensures
        res == pow2(host_bits as nat) - 1,
{
    if host_bits == 32 {
        proof {
            lemma_u32_width();
        }
        u32::MAX
    } else {
        proof {
            lemma_u32_pow2(host_bits);
            lemma_pow2_pos(host_bits as nat);
        }
        (1u32 << host_bits) - 1
    }
}

/// Picks an IPv4 address from a block. A session gets an address that its identifier
/// determines; otherwise the address is random. Either way the network part of the address is
/// that of the block.
pub fn assign_ipv4_from_extention(cidr: &Ipv4Cidr, extention: Extensions) -> (res: u32)
    ensures
        ipv4_assigned(*cidr, extention, res),
{
    proof {
        use_type_invariant(cidr);
        lemma_pow2_pos((32 - cidr.length()) as nat);
    }
    match extention {
        Extensions::Session((a, _)) => {
            let host_bits: u8 = 32 - cidr.network_length();
            let capacity: u32 = ipv4_capacity(host_bits);
            if capacity == 0 {
                return cidr.first_address();
            }
            let base_ip_bits: u32 = cidr.first_address() & !capacity;
            let number: u32 = a as u32;
            assert(number == a as nat % 0x1_0000_0000) by {
                assert(a as u32 == a % 0x1_0000_0000) by (bit_vector);
            }
            proof {
                lemma_u32_replace_host(cidr.first(), host_bits, capacity, number % capacity);
            }
            base_ip_bits | (number % capacity)
        },
        Extensions::Absent => {
            let res: u32 = assign_rand_ipv4(cidr.first_address(), cidr.network_length());
            proof {
                lemma_block_is_range(cidr.first() as nat, res as nat, cidr.size());
            }
            res
        },
    }
}

/// Puts the low bits of `rand` behind the first `prefix_len` bits of `ipv4`.
pub fn rand_ipv4(ipv4: u32, prefix_len: u8, rand: u32) -> (res: u32)
    requires
        prefix_len <= 32,
    ensures
        res == rand_address(ipv4 as nat, pow2((32 - prefix_len) as nat), rand as nat),
{
    if prefix_len == 0 {
        proof {
            lemma_u32_width();
            lemma_small_mod(ipv4 as nat, pow2(32));
            lemma_small_mod(rand as nat, pow2(32));
        }
        return rand;
    }
    if prefix_len == 32 {
        proof {
            lemma2_to64();
        }
        return ipv4;
    }
    proof {
        lemma_u32_join(ipv4, rand, prefix_len);
    }
    let net_part: u32 = (ipv4 >> (32 - prefix_len)) << (32 - prefix_len);
    let host_part: u32 = (rand << prefix_len) >> prefix_len;
    net_part | host_part
}

/// Picks a random IPv4 address that agrees with `ipv4` in the first `prefix_len` bits.
pub fn assign_rand_ipv4(ipv4: u32, prefix_len: u8) -> (res: u32)
    requires
        prefix_len <= 32,
    ensures
        res as nat / pow2((32 - prefix_len) as nat) == ipv4 as nat / pow2(
            (32 - prefix_len) as nat,
        ),
        exists|rand: u32| #[trigger]
            drawn_u32(rand) && res == rand_address(
                ipv4 as nat,
                pow2((32 - prefix_len) as nat),
                rand as nat,
            ),
{
    let rand: u32 = random_u32();
    assert(drawn_u32(rand));
    proof {
        lemma_pow2_pos((32 - prefix_len) as nat);
        lemma_rand_address(ipv4 as nat, pow2((32 - prefix_len) as nat), rand as nat);
    }
    rand_ipv4(ipv4, prefix_len, rand)
}

/// The number of a session among IPv6 addresses: its whole identifier.
pub open spec fn ipv6_session(id: (u64, u64)) -> nat {
    id.0 as nat * 0x1_0000_0000_0000_0000 + id.1 as nat
}

/// Whether an IPv6 address may be given to a connection with this extension. It lies in the
/// block. The host part of a session's address is determined by its identifier. That of any other
/// is what the low bits of a drawn random number give.
pub open spec fn ipv6_assigned(cidr: Ipv6Cidr, extention: Extensions, address: u128) -> bool {
    &&& cidr.contains(address)
    &&& match extention {
        Extensions::Session(id) => address == cidr.first() + session_host(
            ipv6_session(id),
            cidr.size(),
        ),
        Extensions::Absent => exists|rand: u128| #[trigger]
            drawn_u128(rand) && address == cidr.first() + rand as nat % cidr.size(),
    }
}

/// Returns one less than the number of values of `host_bits` bits.
fn ipv6_capacity(host_bits: u8) -> (res: u128)
    requires
        host_bits <= 128,
    ensures
        res == pow2(host_bits as nat) - 1,
{
    if host_bits == 128 {
        proof {
            lemma_u128_width();
        }
        u128::MAX
    } else {
        proof {
            lemma_u128_pow2(host_bits);
            lemma_pow2_pos(host_bits as nat);
        }
        (1u128 << host_bits) - 1
    }
}

/// Picks an IPv6 address from a block. A session gets an address that its identifier
/// determines; otherwise the address is random. Either way the network part of the address is
/// that of the block.
pub fn assign_ipv6_from_extention(cidr: &Ipv6Cidr, extention: Extensions) -> (res: u128)
    ensures
        ipv6_assigned(*cidr, extention, res),
{
    proof {
        use_type_invariant(cidr);
        lemma_pow2_pos((128 - cidr.length()) as nat);
    }
    match extention {
        Extensions::Session((a, b)) => {
            let host_bits: u8 = 128 - cidr.network_length();
            let capacity: u128 = ipv6_capacity(host_bits);
            if capacity == 0 {
                return cidr.first_address();
            }
            let base_ip_bits: u128 = cidr.first_address() & !capacity;
            let number: u128 = ((a as u128) << 64) | (b as u128);
            assert(number == a as nat * 0x1_0000_0000_0000_0000 + b as nat) by {
                assert(((a as u128) << 64) | (b as u128) == a * 0x1_0000_0000_0000_0000 + b)
                    by (bit_vector);
            }
            proof {
                lemma_u128_replace_host(cidr.first(), host_bits, capacity, number % capacity);
            }
            base_ip_bits | (number % capacity)
        },
        Extensions::Absent => {
            let res: u128 = assign_rand_ipv6(cidr.first_address(), cidr.network_length());
            proof {
                lemma_block_is_range(cidr.first() as nat, res as nat, cidr.size());
            }
            res
        },
    }
}

/// Puts the low bits of `rand` behind the first `prefix_len` bits of `ipv6`.
pub fn rand_ipv6(ipv6: u128, prefix_len: u8, rand: u128) -> (res: u128)
    requires
        prefix_len <= 128,
    ensures
        res == rand_address(ipv6 as nat, pow2((128 - prefix_len) as nat), rand as nat),
{
    if prefix_len == 0 {
        proof {
            lemma_u128_width();
            lemma_small_mod(ipv6 as nat, pow2(128));
            lemma_small_mod(rand as nat, pow2(128));
        }
        return rand;
    }
    if prefix_len == 128 {
        proof {
            lemma2_to64();
        }
        return ipv6;
    }
    proof {
        lemma_u128_join(ipv6, rand, prefix_len);
    }
    let net_part: u128 = (ipv6 >> (128 - prefix_len)) << (128 - prefix_len);
    let host_part: u128 = (rand << prefix_len) >> prefix_len;
    net_part | host_part
}

/// Picks a random IPv6 address that agrees with `ipv6` in the first `prefix_len` bits.
pub fn assign_rand_ipv6(ipv6: u128, prefix_len: u8) -> (res: u128)
    requires
        prefix_len <= 128,
    ensures
        res as nat / pow2((128 - prefix_len) as nat) == ipv6 as nat / pow2(
            (128 - prefix_len) as nat,
        ),
        exists|rand: u128| #[trigger]
            drawn_u128(rand) && res == rand_address(
                ipv6 as nat,
                pow2((128 - prefix_len) as nat),
                rand as nat,
            ),
{
    let rand: u128 = random_u128();
    assert(drawn_u128(rand));
    proof {
        lemma_pow2_pos((128 - prefix_len) as nat);
        lemma_rand_address(ipv6 as nat, pow2((128 - prefix_len) as nat), rand as nat);
    }
    rand_ipv6(ipv6, prefix_len, rand)
}

} // verus!
