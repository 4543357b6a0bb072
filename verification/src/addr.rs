//! Plain models of network addresses and node identifiers.
//!
//! The rest of the crate works on these values; the unverified layer around
//! the library converts between them and the operating system's socket
//! address types.

use vstd::prelude::*;

verus! {

/// An IP address: a 32-bit IPv4 address or a 128-bit IPv6 address, in
/// big-endian numeric form.
#[derive(Clone, Copy, Debug, PartialEq, Eq, Hash, Structural)]
pub enum IpAddress {
    V4(u32),
    V6(u128),
}

impl IpAddress {
    /// True if this is an IPv6 address.
    pub fn is_ipv6(&self) -> (r: bool)
        ensures
            r == self is V6,
    {
        match self {
            IpAddress::V4(_) => false,
            IpAddress::V6(_) => true,
        }
    }

    /// True if this is the unspecified (wildcard) address of its family.
    pub fn is_unspecified(&self) -> (r: bool)
        ensures
            r == (*self == IpAddress::V4(0u32) || *self == IpAddress::V6(0u128)),
    {
        match self {
            IpAddress::V4(ip) => *ip == 0u32,
            IpAddress::V6(ip) => *ip == 0u128,
        }
    }

    /// The IPv4-mapped IPv6 form of an address (`::ffff:a.b.c.d`); an IPv6
    /// address is unchanged.
    pub open spec fn v6_mapped_spec(self) -> IpAddress {
        match self {
            IpAddress::V4(ip) => IpAddress::V6((0xffff_0000_0000u128 + ip) as u128),
            IpAddress::V6(ip) => IpAddress::V6(ip),
        }
    }

    /// The IPv4-mapped IPv6 form of this address (`::ffff:a.b.c.d`); an IPv6
    /// address is returned unchanged.
    pub fn to_v6_mapped(&self) -> (r: IpAddress)
        ensures
            r == self.v6_mapped_spec(),
    {
        match self {
            IpAddress::V4(ip) => IpAddress::V6(0xffff_0000_0000u128 + (*ip as u128)),
            IpAddress::V6(ip) => IpAddress::V6(*ip),
        }
    }
}

/// A socket address: an IP address together with a port.
#[derive(Clone, Copy, Debug, PartialEq, Eq, Hash, Structural)]
pub struct IpPort {
    pub ip: IpAddress,
    pub port: u16,
}

impl IpPort {
    /// True if the IP part is an IPv6 address.
    pub fn is_ipv6(&self) -> (r: bool)
        ensures
            r == self.ip is V6,
    {
        self.ip.is_ipv6()
    }
}

/// A node's public key: exactly 32 bytes.
///
/// Nodes are globally unique by key.  The key doubles as the address under
/// which relay servers deliver packets.
#[derive(Clone, Debug)]
pub struct NodeKey {
    bytes: Vec<u8>,
}

/// Length in bytes of a node key.
pub const NODE_KEY_LEN: usize = 32;

impl View for NodeKey {
    type V = Seq<u8>;

    closed spec fn view(&self) -> Seq<u8> {
        self.bytes@
    }
}

impl NodeKey {
    /// Well-formed: the key holds exactly 32 bytes.
    pub open spec fn wf(&self) -> bool {
        self@.len() == NODE_KEY_LEN
    }

    /// Builds a key from its 32 bytes.
    pub fn from_bytes(bytes: Vec<u8>) -> (r: NodeKey)
        requires
            bytes@.len() == NODE_KEY_LEN,
        ensures
            r@ == bytes@,
            r.wf(),
    {
        NodeKey { bytes }
    }

    /// The key's bytes.
    pub fn as_bytes(&self) -> (r: &Vec<u8>)
        ensures
            r@ == self@,
    {
        &self.bytes
    }

    /// A fresh copy of this key.
    pub fn duplicate(&self) -> (r: NodeKey)
        ensures
            r@ == self@,
    {
        NodeKey { bytes: clone_bytes(&self.bytes) }
    }

    /// Byte-wise equality of two keys.
    pub fn key_eq(&self, other: &NodeKey) -> (r: bool)
        ensures
            r == (self@ == other@),
    {
        bytes_eq(&self.bytes, &other.bytes)
    }
}

/// Byte-wise equality of two byte vectors.
pub fn bytes_eq(a: &Vec<u8>, b: &Vec<u8>) -> (r: bool)
    ensures
        r == (a@ == b@),
{
    if a.len() != b.len() {
        assert(a@.len() != b@.len());
        return false;
    }
    let mut i: usize = 0;
    while i < a.len()
        invariant
            0 <= i <= a.len(),
            a@.len() == b@.len(),
            forall|j: int| 0 <= j < i ==> a@[j] == b@[j],
        decreases a.len() - i,
    {
        if a[i] != b[i] {
            return false;
        }
        i += 1;
    }
    assert(a@ =~= b@);
    true
}

/// A fresh copy of a byte vector.
pub fn clone_bytes(v: &Vec<u8>) -> (r: Vec<u8>)
    ensures
        r@ == v@,
{
    let mut r: Vec<u8> = Vec::new();
    let mut i: usize = 0;
    while i < v.len()
        invariant
            0 <= i <= v.len(),
            r@ == v@.subrange(0, i as int),
        decreases v.len() - i,
    {
        r.push(v[i]);
        i += 1;
    }
    assert(r@ =~= v@);
    r
}

/// A relay server URL, as its UTF-8 bytes.
///
/// The layer treats the URL as an opaque routing key: relay clients are
/// created, addressed and closed per URL, byte for byte.
#[derive(Clone, Debug)]
pub struct RelayUrl {
    bytes: Vec<u8>,
}

impl View for RelayUrl {
    type V = Seq<u8>;

    closed spec fn view(&self) -> Seq<u8> {
        self.bytes@
    }
}

impl RelayUrl {
    /// Builds a URL key from its UTF-8 bytes.
    pub fn from_bytes(bytes: Vec<u8>) -> (r: RelayUrl)
        ensures
            r@ == bytes@,
    {
        RelayUrl { bytes }
    }

    /// The URL's bytes.
    pub fn as_bytes(&self) -> (r: &Vec<u8>)
        ensures
            r@ == self@,
    {
        &self.bytes
    }

    /// A fresh copy of this URL.
    pub fn duplicate(&self) -> (r: RelayUrl)
        ensures
            r@ == self@,
    {
        RelayUrl { bytes: clone_bytes(&self.bytes) }
    }

    /// Byte-wise equality of two URLs.
    pub fn url_eq(&self, other: &RelayUrl) -> (r: bool)
        ensures
            r == (self@ == other@),
    {
        bytes_eq(&self.bytes, &other.bytes)
    }
}

/// The source or origin from which a direct address was learned.
#[derive(Clone, Copy, Debug, PartialEq, Eq, Hash, Structural)]
pub enum DirectAddrType {
    /// Not yet determined.
    Unknown,
    /// A locally bound socket address.
    Local,
    /// Public internet address discovered via STUN.
    Stun,
    /// An address assigned by the router using port mapping.
    Portmapped,
    /// Hard NAT: STUN-discovered IPv4 address with the local fixed port.
    Stun4LocalPort,
}

/// A direct address on which this node might be contactable, together with
/// how it was found.
#[derive(Clone, Copy, Debug, PartialEq, Eq, Hash, Structural)]
pub struct DirectAddr {
    /// The address.
    pub addr: IpPort,
    /// The origin of this direct address.
    pub typ: DirectAddrType,
}

} // verus!
