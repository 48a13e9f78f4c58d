//! Addresses and networks, as the numbers that they stand for.
use vstd::arithmetic::power2::pow2;
use vstd::prelude::*;

use crate::text;

verus! {

broadcast use vstd::string::group_string_axioms;

/// An IPv4 or IPv6 address.
#[derive(Clone, Copy, Debug, PartialEq, Eq, Structural)]
pub enum IpAddress {
    V4(u32),
    V6(u128),
}

/// An address block: an address of it, and how many leading bits all its addresses share.
#[allow(inconsistent_fields)]
#[derive(Clone, Copy, Debug, PartialEq, Eq, Structural)]
pub enum Network {
    V4 { addr: u32, prefix: u8 },
    V6 { addr: u128, prefix: u8 },
}

impl IpAddress {
    /// Is it of IPv6?
    pub open spec fn v6(self) -> bool {
        self is V6
    }

    /// Is it of IPv6?
    pub fn is_ipv6(&self) -> (r: bool)
        ensures
            r == self.v6(),
    {
        match self {
            IpAddress::V4(_) => false,
            IpAddress::V6(_) => true,
        }
    }
}

impl Network {
    /// The prefix is not longer than an address.
    pub open spec fn wf(self) -> bool {
        match self {
            Network::V4 { prefix, .. } => prefix <= 32,
            Network::V6 { prefix, .. } => prefix <= 128,
        }
    }

    /// The length of the prefix in bits.
    pub open spec fn prefix_bits(self) -> u8 {
        match self {
            Network::V4 { prefix, .. } => prefix,
            Network::V6 { prefix, .. } => prefix,
        }
    }

    /// The address that the network was written with.
    pub open spec fn address(self) -> IpAddress {
        match self {
            Network::V4 { addr, .. } => IpAddress::V4(addr),
            Network::V6 { addr, .. } => IpAddress::V6(addr),
        }
    }

    /// Is it of IPv6?
    pub open spec fn v6(self) -> bool {
        self is V6
    }

    /// The network of one address.
    pub open spec fn of_address(a: IpAddress) -> Network {
        match a {
            IpAddress::V4(addr) => Network::V4 { addr, prefix: 32 },
            IpAddress::V6(addr) => Network::V6 { addr, prefix: 128 },
        }
    }

    /// The address is of the network's family and shares its leading bits.
    pub open spec fn covers(self, a: IpAddress) -> bool {
        match (self, a) {
            (Network::V4 { addr, prefix }, IpAddress::V4(ip)) => {
                addr as nat / pow2((32 - prefix) as nat) == ip as nat / pow2((32 - prefix) as nat)
            },
            (Network::V6 { addr, prefix }, IpAddress::V6(ip)) => {
                addr as nat / pow2((128 - prefix) as nat) == ip as nat / pow2(
                    (128 - prefix) as nat,
                )
            },
            _ => false,
        }
    }

    /// The length of the prefix in bits.
    pub fn prefix(&self) -> (r: u8)
        ensures
            r == self.prefix_bits(),
    {
        match self {
            Network::V4 { prefix, .. } => *prefix,
            Network::V6 { prefix, .. } => *prefix,
        }
    }

    /// Is it of IPv6?
    pub fn is_ipv6(&self) -> (r: bool)
        ensures
            r == self.v6(),
    {
        match self {
            Network::V4 { .. } => false,
            Network::V6 { .. } => true,
        }
    }

    /// Is an address in the network?
    pub fn contains(&self, a: &IpAddress) -> (r: bool)
        requires
            self.wf(),
        ensures
            r == self.covers(*a),
    {
        match (self, a) {
            (Network::V4 { addr, prefix }, IpAddress::V4(ip)) => {
                if *prefix == 0 {
                    proof {
                        vstd::arithmetic::power2::lemma2_to64();
                        vstd::arithmetic::div_mod::lemma_basic_div(*addr as int, 0x100000000);
                        vstd::arithmetic::div_mod::lemma_basic_div(*ip as int, 0x100000000);
                    }
                    true
                } else {
                    let shift: u32 = 32 - *prefix as u32;
                    proof {
                        vstd::bits::lemma_u32_shr_is_div(*addr, shift);
                        vstd::bits::lemma_u32_shr_is_div(*ip, shift);
                    }
                    (*addr >> shift) == (*ip >> shift)
                }
            },
            (Network::V6 { addr, prefix }, IpAddress::V6(ip)) => {
                if *prefix == 0 {
                    proof {
                        lemma_pow2_128();
                        vstd::arithmetic::div_mod::lemma_basic_div(
                            *addr as int,
                            pow2(128) as int,
                        );
                        vstd::arithmetic::div_mod::lemma_basic_div(*ip as int, pow2(128) as int);
                    }
                    true
                } else {
                    let shift: u128 = 128 - *prefix as u128;
                    proof {
                        vstd::bits::lemma_u128_shr_is_div(*addr, shift);
                        vstd::bits::lemma_u128_shr_is_div(*ip, shift);
                    }
                    (*addr >> shift) == (*ip >> shift)
                }
            },
            _ => false,
        }
    }
}

proof fn lemma_pow2_128()
    ensures
        pow2(128) == u128::MAX + 1,
{
    vstd::arithmetic::power2::lemma2_to64();
    vstd::arithmetic::power2::lemma2_to64_rest();
    vstd::arithmetic::power2::lemma_pow2_adds(64, 64);
    assert(0x10000000000000000int * 0x10000000000000000int
        == 0x100000000000000000000000000000000int) by (nonlinear_arith);
}

/// A network covers the address that it was written with, and the network of one address covers no
/// other address.
pub proof fn law_network_covers_itself(n: Network, a: IpAddress, b: IpAddress)
    ensures
        n.covers(n.address()),
        Network::of_address(a).covers(b) <==> a == b,
{
    vstd::arithmetic::power2::lemma2_to64();
    assert(pow2(0) == 1);
    match (a, b) {
        (IpAddress::V4(x), IpAddress::V4(y)) => {
            assert(x as nat / 1 == x as nat);
            assert(y as nat / 1 == y as nat);
        },
        (IpAddress::V6(x), IpAddress::V6(y)) => {
            assert(x as nat / 1 == x as nat);
            assert(y as nat / 1 == y as nat);
        },
        _ => {},
    }
}

/// Two networks of one family that share an address are nested: the one with the longer prefix lies
/// in the other.
pub proof fn law_networks_nest(n: Network, m: Network, a: IpAddress, b: IpAddress)
    requires
        n.wf(),
        m.wf(),
        n.covers(a),
        m.covers(a),
        n.prefix_bits() <= m.prefix_bits(),
        m.covers(b),
    ensures
        n.covers(b),
{
    match (n, m, a, b) {
        (
            Network::V4 { addr: x, prefix: p },
            Network::V4 { addr: y, prefix: q },
            IpAddress::V4(s),
            IpAddress::V4(t),
        ) => {
            lemma_coarser(s as nat, t as nat, (32 - q) as nat, (q - p) as nat);
        },
        (
            Network::V6 { addr: x, prefix: p },
            Network::V6 { addr: y, prefix: q },
            IpAddress::V6(s),
            IpAddress::V6(t),
        ) => {
            lemma_coarser(s as nat, t as nat, (128 - q) as nat, (q - p) as nat);
        },
        _ => {},
    }
}

/// Numbers that agree above the lowest `e` bits agree above the lowest `e + f` bits.
proof fn lemma_coarser(s: nat, t: nat, e: nat, f: nat)
    requires
        s / pow2(e) == t / pow2(e),
    ensures
        s / pow2(e + f) == t / pow2(e + f),
{
    vstd::arithmetic::power2::lemma_pow2_pos(e);
    vstd::arithmetic::power2::lemma_pow2_pos(f);
    vstd::arithmetic::power2::lemma_pow2_adds(e, f);
    vstd::arithmetic::div_mod::lemma_div_denominator(s as int, pow2(e) as int, pow2(f) as int);
    vstd::arithmetic::div_mod::lemma_div_denominator(t as int, pow2(e) as int, pow2(f) as int);
}

// ---------------------------------------------------------------------------
// Text
// ---------------------------------------------------------------------------

/// The network that a text writes, as `ipnetwork` reads it.
pub uninterp spec fn parsed_network(s: Seq<char>) -> Option<Network>;

/// The text of an address, as the standard library writes it.
pub uninterp spec fn address_chars(a: IpAddress) -> Seq<char>;

/// The address that a text writes: a network without a prefix length.
pub open spec fn parsed_address(s: Seq<char>) -> Option<IpAddress> {
    if s.contains('/') {
        None
    } else {
        match parsed_network(s) {
            Some(n) => Some(n.address()),
            None => None,
        }
    }
}

/// The text of a network: its address, a slash and the length of the prefix.
pub open spec fn network_chars(n: Network) -> Seq<char> {
    address_chars(n.address()) + seq!['/'] + text::decimal(n.prefix_bits() as nat)
}

/// `IpNetwork::from_str` reads an address with an optional prefix length behind a slash. What it
/// makes of a text depends on the text alone; the prefix is never longer than the address.
#[verifier::external_body]
fn read_network(s: &str) -> (r: Option<Network>)
    ensures
        r == parsed_network(s@),
        r matches Some(n) ==> n.wf(),
{
    match s.parse::<ipnetwork::IpNetwork>() {
        Ok(ipnetwork::IpNetwork::V4(n)) => Some(
            Network::V4 { addr: n.ip().into(), prefix: n.prefix() },
        ),
        Ok(ipnetwork::IpNetwork::V6(n)) => Some(
            Network::V6 { addr: n.ip().into(), prefix: n.prefix() },
        ),
        Err(_) => None,
    }
}

/// The `Display` of the address in an `Ipv4Network` or `Ipv6Network`. The text depends on the
/// address alone, holds no slash, and reads back as the network of that one address.
#[verifier::external_body]
fn write_address(a: &IpAddress) -> (r: String)
    ensures
        r@ == address_chars(*a),
        !r@.contains('/'),
        parsed_network(r@) == Some(Network::of_address(*a)),
{
    match a {
        IpAddress::V4(addr) => ipnetwork::Ipv4Network::new((*addr).into(), 32).unwrap().ip()
            .to_string(),
        IpAddress::V6(addr) => ipnetwork::Ipv6Network::new((*addr).into(), 128).unwrap().ip()
            .to_string(),
    }
}

/// The `Display` of `Ipv4Network` and `Ipv6Network` writes the address, a slash and the prefix
/// length in decimal; the text reads back as the same network.
#[verifier::external_body]
fn write_network(n: &Network) -> (r: String)
    requires
        n.wf(),
    ensures
        r@ == network_chars(*n),
        parsed_network(r@) == Some(*n),
{
    match n {
        Network::V4 { addr, prefix } => ipnetwork::Ipv4Network::new((*addr).into(), *prefix)
            .unwrap().to_string(),
        Network::V6 { addr, prefix } => ipnetwork::Ipv6Network::new((*addr).into(), *prefix)
            .unwrap().to_string(),
    }
}

impl Network {
    /// Reads a network in CIDR notation.
    pub fn parse(s: &str) -> (r: Option<Network>)
        ensures
            r == parsed_network(s@),
            r matches Some(n) ==> n.wf(),
    {
        read_network(s)
    }

    /// The network in CIDR notation; it reads back as the same network.
    pub fn to_text(&self) -> (r: String)
        requires
            self.wf(),
        ensures
            r@ == network_chars(*self),
            parsed_network(r@) == Some(*self),
    {
        write_network(self)
    }
}

impl IpAddress {
    /// Reads an address.
    pub fn parse(s: &str) -> (r: Option<IpAddress>)
        ensures
            r == parsed_address(s@),
    {
        let chars = text::to_chars(s);
        if has_slash(&chars) {
            return None;
        }
        match read_network(s) {
            Some(Network::V4 { addr, .. }) => Some(IpAddress::V4(addr)),
            Some(Network::V6 { addr, .. }) => Some(IpAddress::V6(addr)),
            None => None,
        }
    }

    /// The address in its usual notation; it reads back as the same address.
    pub fn to_text(&self) -> (r: String)
        ensures
            r@ == address_chars(*self),
            parsed_address(r@) == Some(*self),
    {
        write_address(self)
    }
}

fn has_slash(s: &[char]) -> (r: bool)
    ensures
        r == s@.contains('/'),
{
    for i in 0..s.len()
        invariant
            forall|j: int| 0 <= j < i ==> s@[j] != '/',
    {
        if s[i] == '/' {
            return true;
        }
    }
    false
}

// ---------------------------------------------------------------------------
// Laws of what networks cover
// ---------------------------------------------------------------------------

/// The prefix of a network says how many leading bits count: none, and it covers every address of
/// its family, whole bytes of it, or all, and it covers its own address alone.
pub proof fn law_leading_bits_count(addr: u32, ip: u32, long: u128, other: u128)
    ensures
        (Network::V4 { addr, prefix: 0 }).covers(IpAddress::V4(ip)),
        (Network::V4 { addr, prefix: 8 }).covers(IpAddress::V4(ip)) <==> addr / 0x100_0000 == ip
            / 0x100_0000,
        (Network::V4 { addr, prefix: 16 }).covers(IpAddress::V4(ip)) <==> addr / 0x1_0000 == ip
            / 0x1_0000,
        (Network::V4 { addr, prefix: 24 }).covers(IpAddress::V4(ip)) <==> addr / 0x100 == ip / 0x100,
        (Network::V4 { addr, prefix: 32 }).covers(IpAddress::V4(ip)) <==> addr == ip,
        (Network::V6 { addr: long, prefix: 64 }).covers(IpAddress::V6(other)) <==> long
            / 0x1_0000_0000_0000_0000 == other / 0x1_0000_0000_0000_0000,
        (Network::V6 { addr: long, prefix: 128 }).covers(IpAddress::V6(other)) <==> long == other,
{
    vstd::arithmetic::power2::lemma2_to64();
    assert(addr as nat / 0x1_0000_0000 == 0 && ip as nat / 0x1_0000_0000 == 0);
    assert(addr as nat / 1 == addr && ip as nat / 1 == ip);
    assert(long as nat / 1 == long && other as nat / 1 == other);
}

/// No network covers an address of the other family.
pub proof fn law_families_are_apart(n: Network, a: IpAddress)
    ensures
        n.covers(a) ==> n.v6() == a.v6(),
        n.v6() <==> n.address().v6(),
{
}

/// The text of an address is that of a network without a prefix; a text with a slash is none.
pub proof fn law_what_is_an_address(s: Seq<char>)
    ensures
        s.contains('/') ==> parsed_address(s) is None,
        !s.contains('/') ==> (parsed_address(s) is Some <==> parsed_network(s) is Some),
        parsed_address(s) matches Some(a) ==> parsed_network(s) matches Some(n) && n.address() == a,
{
}

} // verus!
