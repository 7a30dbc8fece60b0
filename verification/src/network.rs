//! Blocks of addresses.

use crate::address::Family;
use cidr::errors::NetworkParseError;
use vstd::arithmetic::power2::pow2;
use vstd::prelude::*;

verus! {

/// The error of `cidr` for parts that make no network.
#[verifier::external_type_specification]
#[verifier::external_body]
pub struct ExNetworkParseError(NetworkParseError);

/// `cidr::Ipv4Cidr::new`, with `first_address` and `network_length` of the network it makes.
/// It takes an address and a length, and fails where the length is more than 32 or where the
/// address has a bit set behind the length. The network holds the two as they were given.
#[verifier::external_body]
fn ipv4_network(address: u32, network_length: u8) -> (res: Result<(u32, u8), NetworkParseError>)
    ensures
        match res {
            Ok(parts) => {
                &&& network_length <= 32
                &&& address as nat % pow2((32 - network_length) as nat) == 0
                &&& parts == (address, network_length)
            },
            Err(_) => {
                ||| network_length > 32
                ||| address as nat % pow2((32 - network_length) as nat) != 0
            },
        },
{
    cidr::Ipv4Cidr::new(address.into(), network_length).map(
        |network| (network.first_address().into(), network.network_length()),
    )
}

/// `cidr::Ipv6Cidr::new`, with `first_address` and `network_length` of the network it makes.
/// It takes an address and a length, and fails where the length is more than 128 or where the
/// address has a bit set behind the length. The network holds the two as they were given.
#[verifier::external_body]
fn ipv6_network(address: u128, network_length: u8) -> (res: Result<(u128, u8), NetworkParseError>)
    ensures
        match res {
            Ok(parts) => {
                &&& network_length <= 128
                &&& address as nat % pow2((128 - network_length) as nat) == 0
                &&& parts == (address, network_length)
            },
            Err(_) => {
                ||| network_length > 128
                ||| address as nat % pow2((128 - network_length) as nat) != 0
            },
        },
{
    cidr::Ipv6Cidr::new(address.into(), network_length).map(
        |network| (network.first_address().into(), network.network_length()),
    )
}

/// Why an address and a length make no block.
#[derive(Clone, Copy, Debug, PartialEq, Eq)]
pub enum NetworkError {
    /// The length is more than the address has bits.
    LengthTooLong,
    /// The address is not the first one of its block.
    InvalidHostPart,
}

/// A block of IPv4 addresses: those that agree with the first one in its leading bits.
#[derive(Clone, Copy, Debug, PartialEq, Eq)]
pub struct Ipv4Cidr {
    first_address: u32,
    network_length: u8,
}

impl Ipv4Cidr {
    /// The first address of the block.
    pub closed spec fn first(self) -> u32 {
        self.first_address
    }

    /// The number of leading bits that all addresses of the block share.
    pub closed spec fn length(self) -> u8 {
        self.network_length
    }

    /// The number of addresses in the block.
    pub open spec fn size(self) -> nat {
        pow2((32 - self.length()) as nat)
    }

    /// The length fits the address, and the first address has no bit set behind it.
    #[verifier::type_invariant]
    pub open spec fn wf(self) -> bool {
        &&& self.length() <= 32
        &&& self.first() as nat % self.size() == 0
    }

    /// Whether an address lies in the block.
    pub open spec fn contains(self, address: u32) -> bool {
        self.first() <= address < self.first() + self.size()
    }

    /// Makes the block of the addresses that share the first `network_length` bits of `address`,
    /// which has to be the first of them.
    pub fn new(address: u32, network_length: u8) -> (res: Result<Ipv4Cidr, NetworkError>)
        ensures
            match res {
                Ok(cidr) => {
                    &&& cidr.wf()
                    &&& cidr.first() == address
                    &&& cidr.length() == network_length
                },
                Err(NetworkError::LengthTooLong) => network_length > 32,
                Err(NetworkError::InvalidHostPart) => {
                    &&& network_length <= 32
                    &&& address as nat % pow2((32 - network_length) as nat) != 0
                },
            },
    {
        match ipv4_network(address, network_length) {
            Ok((first_address, network_length)) => Ok(Ipv4Cidr { first_address, network_length }),
            Err(_) => {
                if network_length > 32 {
                    Err(NetworkError::LengthTooLong)
                } else {
                    Err(NetworkError::InvalidHostPart)
                }
            },
        }
    }

    /// Returns the first address of the block.
    pub fn first_address(&self) -> (res: u32)
        ensures
            res == self.first(),
    {
        self.first_address
    }

    /// Returns the number of leading bits that all addresses of the block share.
    pub fn network_length(&self) -> (res: u8)
        ensures
            res == self.length(),
    {
        self.network_length
    }
}

/// A block of IPv6 addresses: those that agree with the first one in its leading bits.
#[derive(Clone, Copy, Debug, PartialEq, Eq)]
pub struct Ipv6Cidr {
    first_address: u128,
    network_length: u8,
}

impl Ipv6Cidr {
    /// The first address of the block.
    pub closed spec fn first(self) -> u128 {
        self.first_address
    }

    /// The number of leading bits that all addresses of the block share.
    pub closed spec fn length(self) -> u8 {
        self.network_length
    }

    /// The number of addresses in the block.
    pub open spec fn size(self) -> nat {
        pow2((128 - self.length()) as nat)
    }

    /// The length fits the address, and the first address has no bit set behind it.
    #[verifier::type_invariant]
    pub open spec fn wf(self) -> bool {
        &&& self.length() <= 128
        &&& self.first() as nat % self.size() == 0
    }

    /// Whether an address lies in the block.
    pub open spec fn contains(self, address: u128) -> bool {
        self.first() <= address < self.first() + self.size()
    }

    /// Makes the block of the addresses that share the first `network_length` bits of `address`,
    /// which has to be the first of them.
    pub fn new(address: u128, network_length: u8) -> (res: Result<Ipv6Cidr, NetworkError>)
        ensures
            match res {
                Ok(cidr) => {
                    &&& cidr.wf()
                    &&& cidr.first() == address
                    &&& cidr.length() == network_length
                },
                Err(NetworkError::LengthTooLong) => network_length > 128,
                Err(NetworkError::InvalidHostPart) => {
                    &&& network_length <= 128
                    &&& address as nat % pow2((128 - network_length) as nat) != 0
                },
            },
    {
        match ipv6_network(address, network_length) {
            Ok((first_address, network_length)) => Ok(Ipv6Cidr { first_address, network_length }),
            Err(_) => {
                if network_length > 128 {
                    Err(NetworkError::LengthTooLong)
                } else {
                    Err(NetworkError::InvalidHostPart)
                }
            },
        }
    }

    /// Returns the first address of the block.
    pub fn first_address(&self) -> (res: u128)
        ensures
            res == self.first(),
    {
        self.first_address
    }

    /// Returns the number of leading bits that all addresses of the block share.
    pub fn network_length(&self) -> (res: u8)
        ensures
            res == self.length(),
    {
        self.network_length
    }
}

/// A block of addresses of either family.
#[derive(Clone, Copy, Debug, PartialEq, Eq)]
pub enum IpCidr {
    V4(Ipv4Cidr),
    V6(Ipv6Cidr),
}

impl IpCidr {
    /// The protocol version of the addresses in the block.
    pub open spec fn family(self) -> Family {
        match self {
            IpCidr::V4(_) => Family::V4,
            IpCidr::V6(_) => Family::V6,
        }
    }
}

} // verus!
