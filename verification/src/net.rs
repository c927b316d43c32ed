//! IP addresses and CIDR blocks.

use crate::text;
use vstd::arithmetic::div_mod::*;
use vstd::arithmetic::power2::*;
use vstd::bits::*;
use vstd::prelude::*;

verus! {

/// An IP address, as the number that its bits stand for.
#[derive(Clone, Copy, Debug, PartialEq, Eq, Structural)]
pub enum IpAddress {
    V4(u32),
    V6(u128),
}

impl IpAddress {
    /// How many bits an address of this family has.
    pub open spec fn width(self) -> nat {
        match self {
            IpAddress::V4(_) => 32,
            IpAddress::V6(_) => 128,
        }
    }

    /// The number that the address stands for.
    pub open spec fn bits(self) -> nat {
        match self {
            IpAddress::V4(n) => n as nat,
            IpAddress::V6(n) => n as nat,
        }
    }
}

/// A network: the addresses of one family whose first `length` bits are those of
/// `first`.
#[derive(Clone, Copy, Debug, PartialEq, Eq, Structural)]
pub struct IpNet {
    /// The first address of the network.
    pub first: IpAddress,
    /// How many leading bits the addresses of the network share.
    pub length: u8,
}

impl IpNet {
    /// The length is within the address, and the bits behind it are zero in the
    /// first address.
    pub open spec fn well_formed(self) -> bool {
        &&& self.length <= self.first.width()
        &&& self.first.bits() % pow2((self.first.width() - self.length) as nat) == 0
    }

    /// Whether an address belongs to the network.
    pub open spec fn covers(self, address: IpAddress) -> bool {
        &&& self.first.width() == address.width()
        &&& leading_bits(self.first, self.length as nat) == leading_bits(
            address,
            self.length as nat,
        )
    }

    /// Whether an address belongs to the network.
    pub fn contains(&self, address: IpAddress) -> (r: bool)
        requires
            self.well_formed(),
        ensures
            r == self.covers(address),
    {
        match (self.first, address) {
            (IpAddress::V4(a), IpAddress::V4(b)) => {
                if self.length == 0 {
                    proof {
                        lemma2_to64();
                        lemma_basic_div(a as int, pow2(32) as int);
                        lemma_basic_div(b as int, pow2(32) as int);
                    }
                    return true;
                }
                let shift: u32 = 32 - self.length as u32;
                proof {
                    lemma_u32_shr_is_div(a, shift);
                    lemma_u32_shr_is_div(b, shift);
                }
                a >> shift == b >> shift
            },
            (IpAddress::V6(a), IpAddress::V6(b)) => {
                if self.length == 0 {
                    proof {
                        lemma2_to64();
                        lemma_pow2_adds(64, 64);
                        lemma_basic_div(a as int, pow2(128) as int);
                        lemma_basic_div(b as int, pow2(128) as int);
                    }
                    return true;
                }
                let shift: u128 = 128 - self.length as u128;
                proof {
                    lemma_u128_shr_is_div(a, shift);
                    lemma_u128_shr_is_div(b, shift);
                }
                a >> shift == b >> shift
            },
            _ => false,
        }
    }
}

/// The number that the first `length` bits of an address stand for.
pub open spec fn leading_bits(address: IpAddress, length: nat) -> nat {
    address.bits() / pow2((address.width() - length) as nat)
}

/// The network that holds one address.
pub open spec fn host_network(address: IpAddress) -> IpNet {
    IpNet { first: address, length: address.width() as u8 }
}

/// The address that a literal such as `10.0.0.1` or `::1` stands for, if it is
/// one.
pub uninterp spec fn address_literal(s: Seq<char>) -> Option<IpAddress>;

/// Where the last `/` of a text stands; negative where there is none.
pub open spec fn last_slash(s: Seq<char>) -> int
    decreases s.len(),
{
    if s.len() == 0 || s.last() == '/' {
        s.len() - 1
    } else {
        last_slash(s.drop_last())
    }
}

/// What a text stands for as a network: an address, `/` and a length, or an
/// address alone.
pub open spec fn network_of(s: Seq<char>) -> Option<IpNet> {
    if s.contains('/') {
        block_of(
            address_literal(s.take(last_slash(s))),
            text::whole_number(s.skip(last_slash(s) + 1), 255),
        )
    } else {
        match address_literal(s) {
            Some(address) => Some(host_network(address)),
            None => None,
        }
    }
}

/// The network with the given first address and length. There is none where the
/// length is beyond the address, or where a bit behind the length is set.
pub open spec fn block_of(address: Option<IpAddress>, length: Option<nat>) -> Option<IpNet> {
    match (address, length) {
        (Some(first), Some(n)) => {
            let net = IpNet { first, length: n as u8 };
            if net.well_formed() {
                Some(net)
            } else {
                None
            }
        },
        _ => None,
    }
}

/// `<cidr::IpCidr as FromStr>::from_str`: without a `/` the text is an address
/// literal and stands for the network of that address alone; with one, what is
/// in front of the last `/` is the first address and what is behind it a length
/// below 256, and the length may be no more than the address has bits, with
/// every bit behind it zero. Which address a literal stands for is a function of
/// its text alone; no literal, and no length, holds a NUL character.
#[verifier::external_body]
fn parse_cidr(s: &str) -> (net: Option<IpNet>)
    ensures
        !s@.contains('/') ==> net == (match address_literal(s@) {
            Some(address) => Some(host_network(address)),
            None => None,
        }),
        s@.contains('/') ==> net == block_of(
            address_literal(s@.take(last_slash(s@))),
            text::whole_number(s@.skip(last_slash(s@) + 1), 255),
        ),
        net is Some ==> !s@.contains('\0'),
{
    match s.parse::<cidr::IpCidr>() {
        Ok(cidr::IpCidr::V4(net)) => Some(IpNet {
            first: IpAddress::V4(u32::from(net.first_address())),
            length: net.network_length(),
        }),
        Ok(cidr::IpCidr::V6(net)) => Some(IpNet {
            first: IpAddress::V6(u128::from(net.first_address())),
            length: net.network_length(),
        }),
        Err(_) => None,
    }
}

/// Reads a network: a CIDR block, or an address that stands for itself.
pub fn parse_network(s: &str) -> (net: Option<IpNet>)
    ensures
        net == network_of(s@),
        net matches Some(n) ==> n.well_formed(),
{
    let net: Option<IpNet> = parse_cidr(s);
    proof {
        if let Some(address) = address_literal(s@) {
            host_network_is_well_formed(address);
        }
    }
    net
}

/// The network of one address is well formed.
pub proof fn host_network_is_well_formed(address: IpAddress)
    ensures
        host_network(address).well_formed(),
{
    lemma2_to64();
}

/// What a text stands for as an address.
pub open spec fn address_of(s: Seq<char>) -> Option<IpAddress> {
    if s.contains('/') {
        None
    } else {
        address_literal(s)
    }
}

/// Reads an address literal.
pub fn parse_address(s: &str) -> (address: Option<IpAddress>)
    ensures
        address == address_of(s@),
        address is Some ==> !s@.contains('\0'),
{
    let chars: Vec<char> = text::chars_of(s);
    match text::find_char(chars.as_slice(), '/') {
        Some(_) => None,
        None => match parse_cidr(s) {
            Some(net) => Some(net.first),
            None => None,
        },
    }
}

/// The IPv4 address that an address stands for: its own, or the one that is
/// mapped into it (`::ffff:10.0.0.1`).
pub open spec fn normalised(ip: IpAddress) -> IpAddress {
    match ip {
        IpAddress::V6(n) if n / 0x1_0000_0000 == 0xffff => IpAddress::V4((n % 0x1_0000_0000) as u32),
        _ => ip,
    }
}

/// Collapses an IPv4-mapped IPv6 address (`::ffff:10.0.0.1`) to its IPv4 form.
///
/// A listener bound to `::` receives IPv4 peers in mapped form on most
/// platforms.
pub fn normalise(ip: IpAddress) -> (r: IpAddress)
    ensures
        r == normalised(ip),
{
    match ip {
        IpAddress::V6(n) => {
            if n / 0x1_0000_0000 == 0xffff {
                IpAddress::V4((n % 0x1_0000_0000) as u32)
            } else {
                ip
            }
        },
        IpAddress::V4(_) => ip,
    }
}

/// The IPv6 address into which an IPv4 address is mapped.
pub open spec fn mapped(v4: u32) -> IpAddress {
    IpAddress::V6((0xffff_0000_0000 + v4) as u128)
}

/// Mapping an IPv4 address into IPv6 and normalising gives the address back.
pub proof fn normalise_undoes_mapping(v4: u32)
    ensures
        normalised(mapped(v4)) == IpAddress::V4(v4),
{
}

/// A network holds addresses of its own family only: an IPv4 block, the default
/// route `0.0.0.0/0` too, covers no IPv6 address, and the other way round.
pub proof fn networks_keep_to_their_family(net: IpNet, address: IpAddress)
    requires
        net.covers(address),
    ensures
        net.first is V4 <==> address is V4,
{
}

/// A block of length zero covers every address of its family.
pub proof fn default_route_covers_its_family(net: IpNet, address: IpAddress)
    requires
        net.length == 0,
        net.first is V4 <==> address is V4,
    ensures
        net.covers(address),
{
    lemma2_to64();
    lemma_pow2_adds(64, 64);
    lemma_basic_div(net.first.bits() as int, pow2(net.first.width()) as int);
    lemma_basic_div(address.bits() as int, pow2(address.width()) as int);
}

/// The network of one address covers that address and no other.
pub proof fn host_network_covers_one(address: IpAddress, other: IpAddress)
    ensures
        host_network(address).covers(other) <==> other == address,
{
    lemma2_to64();
    assert(leading_bits(address, address.width()) == address.bits() / 1);
    assert(leading_bits(other, other.width()) == other.bits() / 1);
    assert(address.bits() / 1 == address.bits() && other.bits() / 1 == other.bits());
}

} // verus!
