//! Address families, socket types, protocols, bind targets and the socket-address records
//! that the operating system reads and writes.

use crate::order::host_array;
use crate::order::host_bytes;
use crate::order::host_image;
use crate::order::host_number;
use crate::order::host_value;
use crate::order::lemma_bytes_len;
use crate::order::lemma_bytes_of_value;
use crate::order::lemma_host_image_grows;
use crate::order::lemma_span_values;
use crate::order::lemma_value_bound;
use crate::order::lemma_value_of_bytes;
use crate::order::zeros;
use vstd::prelude::*;

verus! {

/// Where a socket is bound or connected to.
#[derive(Debug)]
pub enum BindFamily {
    /// A path in the file system.
    Unix(String),
    /// An IPv4 address and a port, both in host order.
    Inet(u32, u16),
    /// An IPv6 address and a port, both in host order.
    Inet6(u128, u16),
}

/// The domain of a socket.
#[derive(Clone, Copy, Debug, PartialEq, Eq, Structural)]
pub enum AddressFamily {
    Unspec,
    Unix,
    Inet,
    Inet6,
}

/// How a socket moves data.
#[derive(Clone, Copy, Debug, PartialEq, Eq, Structural)]
pub enum SocketType {
    Stream,
    DataGram,
    Raw,
    SeqPacket,
    Packet,
}

/// The protocol of a socket.
#[derive(Clone, Copy, Debug, PartialEq, Eq, Structural)]
pub enum IpProto {
    Ip,
    Icmp,
    Igmp,
    IpIp,
    Tcp,
    Udp,
    Ipv6,
    Gre,
    Esp,
    Ah,
}

impl AddressFamily {
    /// The number by which the operating system knows this domain.
    pub open spec fn spec_code(self) -> i32 {
        match self {
            AddressFamily::Unspec => 0,
            AddressFamily::Unix => 1,
            AddressFamily::Inet => 2,
            AddressFamily::Inet6 => 10,
        }
    }

    /// The number by which the operating system knows this domain.
    #[verifier::when_used_as_spec(spec_code)]
    pub fn code(self) -> (r: i32)
        ensures
            r == self.spec_code(),
    {
        match self {
            AddressFamily::Unspec => 0,
            AddressFamily::Unix => 1,
            AddressFamily::Inet => 2,
            AddressFamily::Inet6 => 10,
        }
    }
}

impl SocketType {
    /// The number by which the operating system knows this socket type.
    pub open spec fn spec_code(self) -> i32 {
        match self {
            SocketType::Stream => 1,
            SocketType::DataGram => 2,
            SocketType::Raw => 3,
            SocketType::SeqPacket => 5,
            SocketType::Packet => 10,
        }
    }

    /// The number by which the operating system knows this socket type.
    #[verifier::when_used_as_spec(spec_code)]
    pub fn code(self) -> (r: i32)
        ensures
            r == self.spec_code(),
    {
        match self {
            SocketType::Stream => 1,
            SocketType::DataGram => 2,
            SocketType::Raw => 3,
            SocketType::SeqPacket => 5,
            SocketType::Packet => 10,
        }
    }
}

impl IpProto {
    /// The number by which the operating system knows this protocol.
    pub open spec fn spec_code(self) -> i32 {
        match self {
            IpProto::Ip => 0,
            IpProto::Icmp => 1,
            IpProto::Igmp => 2,
            IpProto::IpIp => 4,
            IpProto::Tcp => 6,
            IpProto::Udp => 17,
            IpProto::Ipv6 => 41,
            IpProto::Gre => 47,
            IpProto::Esp => 50,
            IpProto::Ah => 51,
        }
    }

    /// The number by which the operating system knows this protocol.
    #[verifier::when_used_as_spec(spec_code)]
    pub fn code(self) -> (r: i32)
        ensures
            r == self.spec_code(),
    {
        match self {
            IpProto::Ip => 0,
            IpProto::Icmp => 1,
            IpProto::Igmp => 2,
            IpProto::IpIp => 4,
            IpProto::Tcp => 6,
            IpProto::Udp => 17,
            IpProto::Ipv6 => 41,
            IpProto::Gre => 47,
            IpProto::Esp => 50,
            IpProto::Ah => 51,
        }
    }
}

impl BindFamily {
    /// The domain that this target belongs to.
    pub open spec fn spec_family(&self) -> AddressFamily {
        match self {
            BindFamily::Unix(_) => AddressFamily::Unix,
            BindFamily::Inet(_, _) => AddressFamily::Inet,
            BindFamily::Inet6(_, _) => AddressFamily::Inet6,
        }
    }

    /// The domain that this target belongs to.
    #[verifier::when_used_as_spec(spec_family)]
    pub fn family(&self) -> (r: AddressFamily)
        ensures
            r == self.spec_family(),
    {
        match self {
            BindFamily::Unix(_) => AddressFamily::Unix,
            BindFamily::Inet(_, _) => AddressFamily::Inet,
            BindFamily::Inet6(_, _) => AddressFamily::Inet6,
        }
    }
}

/// The bytes of `src` copied over those of `dst` from position `at` on.
fn put<const N: usize, const M: usize>(dst: &mut [u8; N], at: usize, src: &[u8; M])
    requires
        at + M <= N,
    ensures
        final(dst)@ == old(dst)@.take(at as int) + src@ + old(dst)@.skip(at + M),
{
    let mut i: usize = 0;
    while i < M
        invariant
            i <= M,
            at + M <= N,
            dst@.len() == N,
            src@.len() == M,
            dst@ == old(dst)@.take(at as int) + src@.take(i as int) + old(dst)@.skip(at + i),
        decreases M - i,
    {
        dst[at + i] = src[i];
        i = i + 1;
        proof {
            assert(dst@ =~= old(dst)@.take(at as int) + src@.take(i as int) + old(dst)@.skip(
                at + i,
            ));
        }
    }
    proof {
        assert(src@.take(M as int) =~= src@);
    }
}

/// The `M` bytes of `src` from position `at` on.
fn pick<const N: usize, const M: usize>(src: &[u8; N], at: usize) -> (r: [u8; M])
    requires
        at + M <= N,
    ensures
        r@ == src@.subrange(at as int, at + M),
{
    let mut r = [0u8; M];
    let mut i: usize = 0;
    while i < M
        invariant
            i <= M,
            at + M <= N,
            r@.len() == M,
            src@.len() == N,
            r@.take(i as int) == src@.subrange(at as int, at + i),
        decreases M - i,
    {
        r[i] = src[at + i];
        i = i + 1;
        proof {
            assert(r@.take(i as int) =~= src@.subrange(at as int, at + i));
        }
    }
    proof {
        assert(r@.take(M as int) =~= r@);
    }
    r
}

/// The count of bytes of an IPv4 socket-address record.
pub const INET_SOCKADDR_LEN: usize = 16;

/// The count of bytes of an IPv6 socket-address record.
pub const INET6_SOCKADDR_LEN: usize = 28;

/// The count of bytes that hold the path of a Unix socket-address record.
pub const UNIX_PATH_LEN: usize = 108;

/// The count of bytes of a Unix socket-address record.
pub const UNIX_SOCKADDR_LEN: usize = 110;

/// An IPv4 address as it lies in memory and on the wire: four bytes, the first of them the
/// most significant of an address in network order.
#[derive(Clone, Copy, Debug, PartialEq, Eq)]
pub struct InetAddr {
    pub addr8: [u8; 4],
}

impl View for InetAddr {
    type V = Seq<u8>;

    open spec fn view(&self) -> Seq<u8> {
        self.addr8@
    }
}

impl InetAddr {
    /// The address made of these four bytes.
    pub fn new_8(addr8: [u8; 4]) -> (r: Self)
        ensures
            r@ == addr8@,
    {
        Self { addr8 }
    }

    /// The address whose bytes are those of these two numbers in memory, one after the
    /// other.
    pub fn new_16(addr16: [u16; 2]) -> (r: Self)
        ensures
            r@ == host_image(addr16@.map_values(|v: u16| v as nat), 2),
    {
        let ghost values = addr16@.map_values(|v: u16| v as nat);
        let mut addr8 = [0u8; 4];
        let mut i: usize = 0;
        while i < 2
            invariant
                i <= 2,
                values == addr16@.map_values(|v: u16| v as nat),
                addr8@.take(2 * i) == host_image(values.take(i as int), 2),
            decreases 2 - i,
        {
            let part = host_array::<2>(addr16[i] as u128);
            put(&mut addr8, 2 * i, &part);
            proof {
                lemma_host_image_grows(values, 2, i as int);
                assert(addr8@.take(2 * (i + 1)) =~= host_image(values.take(i + 1), 2));
            }
            i = i + 1;
        }
        proof {
            assert(addr8@.take(4) =~= addr8@);
            assert(values.take(2) =~= values);
        }
        Self { addr8 }
    }

    /// The address whose bytes are those of this number in memory.
    pub fn new_32(addr32: u32) -> (r: Self)
        ensures
            r@ == host_bytes(addr32 as nat, 4),
    {
        Self { addr8: host_array::<4>(addr32 as u128) }
    }

    /// The address whose bytes are those of this number in memory.
    pub fn new(addr32: u32) -> (r: Self)
        ensures
            r@ == host_bytes(addr32 as nat, 4),
    {
        Self::new_32(addr32)
    }
}

/// An IPv4 socket address as the operating system keeps it: the family and the reserved
/// field as this machine writes numbers, the port and the address in network order.
#[derive(Clone, Copy, Debug, PartialEq, Eq)]
pub struct InetSockAddr {
    pub family: u16,
    pub port: u16,
    pub addr: InetAddr,
    pub reserved: u64,
}

impl InetSockAddr {
    /// The sixteen bytes of the record in memory.
    pub open spec fn image(&self) -> Seq<u8> {
        host_bytes(self.family as nat, 2) + host_bytes(self.port as nat, 2) + self.addr@
            + host_bytes(self.reserved as nat, 8)
    }

    /// The sixteen bytes of the record in memory.
    pub fn to_bytes(&self) -> (r: [u8; 16])
        ensures
            r@ == self.image(),
    {
        let mut r = [0u8; 16];
        let family = host_array::<2>(self.family as u128);
        let port = host_array::<2>(self.port as u128);
        let reserved = host_array::<8>(self.reserved as u128);
        put(&mut r, 0, &family);
        put(&mut r, 2, &port);
        put(&mut r, 4, &self.addr.addr8);
        put(&mut r, 8, &reserved);
        proof {
            assert(r@ =~= self.image());
        }
        r
    }

    /// The record that lies in these sixteen bytes of memory.
    pub fn from_bytes(b: &[u8; 16]) -> (r: Self)
        ensures
            r.family == host_value(b@.subrange(0, 2)),
            r.port == host_value(b@.subrange(2, 4)),
            r.addr@ == b@.subrange(4, 8),
            r.reserved == host_value(b@.subrange(8, 16)),
            r.image() == b@,
    {
        let family = pick::<16, 2>(b, 0);
        let port = pick::<16, 2>(b, 2);
        let addr = pick::<16, 4>(b, 4);
        let reserved = pick::<16, 8>(b, 8);
        proof {
            lemma_span_values();
            lemma_value_bound(family@);
            lemma_value_bound(port@);
            lemma_value_bound(reserved@);
            lemma_bytes_of_value(family@);
            lemma_bytes_of_value(port@);
            lemma_bytes_of_value(reserved@);
        }
        let r = Self {
            family: host_number::<2>(&family) as u16,
            port: host_number::<2>(&port) as u16,
            addr: InetAddr::new_8(addr),
            reserved: host_number::<8>(&reserved) as u64,
        };
        proof {
            assert(r.image() =~= b@);
        }
        r
    }
}

/// Two IPv4 records with the same bytes in memory are one record.
pub proof fn lemma_inet_image_decides(a: InetSockAddr, b: InetSockAddr)
    requires
        a.image() == b.image(),
    ensures
        a == b,
{
    lemma_span_values();
    assert forall|x: nat, n: nat| #![trigger host_bytes(x, n)] true implies host_bytes(x, n).len()
        == n by {
        lemma_bytes_len(x, n);
    }
    assert(a.image().subrange(0, 2) =~= host_bytes(a.family as nat, 2));
    assert(b.image().subrange(0, 2) =~= host_bytes(b.family as nat, 2));
    assert(a.image().subrange(2, 4) =~= host_bytes(a.port as nat, 2));
    assert(b.image().subrange(2, 4) =~= host_bytes(b.port as nat, 2));
    assert(a.image().subrange(4, 8) =~= a.addr@);
    assert(b.image().subrange(4, 8) =~= b.addr@);
    assert(a.image().subrange(8, 16) =~= host_bytes(a.reserved as nat, 8));
    assert(b.image().subrange(8, 16) =~= host_bytes(b.reserved as nat, 8));
    lemma_value_of_bytes(a.family as nat, 2);
    lemma_value_of_bytes(b.family as nat, 2);
    lemma_value_of_bytes(a.port as nat, 2);
    lemma_value_of_bytes(b.port as nat, 2);
    lemma_value_of_bytes(a.reserved as nat, 8);
    lemma_value_of_bytes(b.reserved as nat, 8);
    assert(a.addr.addr8 =~= b.addr.addr8);
}

impl Default for InetAddr {
    /// The address whose bytes are all zero.
    fn default() -> (r: Self)
        ensures
            r@ == zeros(4),
    {
        let r = Self { addr8: [0u8; 4] };
        proof {
            assert(r@ =~= zeros(4));
        }
        r
    }
}

impl Default for InetSockAddr {
    /// The record of the IPv4 family with every other field zero.
    fn default() -> (r: Self)
        ensures
            r.family == AddressFamily::Inet.spec_code(),
            r.port == 0,
            r.addr@ == zeros(4),
            r.reserved == 0,
    {
        Self {
            family: AddressFamily::Inet.code() as u16,
            port: 0,
            addr: InetAddr::default(),
            reserved: 0,
        }
    }
}

/// An IPv6 address as it lies in memory and on the wire: sixteen bytes, the first of them
/// the most significant of an address in network order.
#[derive(Clone, Copy, Debug, PartialEq, Eq)]
pub struct Inet6Addr {
    pub addr8: [u8; 16],
}

impl View for Inet6Addr {
    type V = Seq<u8>;

    open spec fn view(&self) -> Seq<u8> {
        self.addr8@
    }
}

impl Inet6Addr {
    /// The address made of these sixteen bytes.
    pub fn new_8(addr8: [u8; 16]) -> (r: Self)
        ensures
            r@ == addr8@,
    {
        Self { addr8 }
    }

    /// The address whose bytes are those of these eight numbers in memory, one after the
    /// other.
    pub fn new_16(addr16: [u16; 8]) -> (r: Self)
        ensures
            r@ == host_image(addr16@.map_values(|v: u16| v as nat), 2),
    {
        let ghost values = addr16@.map_values(|v: u16| v as nat);
        let mut addr8 = [0u8; 16];
        let mut i: usize = 0;
        while i < 8
            invariant
                i <= 8,
                values == addr16@.map_values(|v: u16| v as nat),
                addr8@.take(2 * i) == host_image(values.take(i as int), 2),
            decreases 8 - i,
        {
            let part = host_array::<2>(addr16[i] as u128);
            put(&mut addr8, 2 * i, &part);
            proof {
                lemma_host_image_grows(values, 2, i as int);
                assert(addr8@.take(2 * (i + 1)) =~= host_image(values.take(i + 1), 2));
            }
            i = i + 1;
        }
        proof {
            assert(addr8@.take(16) =~= addr8@);
            assert(values.take(8) =~= values);
        }
        Self { addr8 }
    }

    /// The address whose bytes are those of these four numbers in memory, one after the
    /// other.
    pub fn new_32(addr32: [u32; 4]) -> (r: Self)
        ensures
            r@ == host_image(addr32@.map_values(|v: u32| v as nat), 4),
    {
        let ghost values = addr32@.map_values(|v: u32| v as nat);
        let mut addr8 = [0u8; 16];
        let mut i: usize = 0;
        while i < 4
            invariant
                i <= 4,
                values == addr32@.map_values(|v: u32| v as nat),
                addr8@.take(4 * i) == host_image(values.take(i as int), 4),
            decreases 4 - i,
        {
            let part = host_array::<4>(addr32[i] as u128);
            put(&mut addr8, 4 * i, &part);
            proof {
                lemma_host_image_grows(values, 4, i as int);
                assert(addr8@.take(4 * (i + 1)) =~= host_image(values.take(i + 1), 4));
            }
            i = i + 1;
        }
        proof {
            assert(addr8@.take(16) =~= addr8@);
            assert(values.take(4) =~= values);
        }
        Self { addr8 }
    }

    /// The address whose bytes are those of these two numbers in memory, one after the
    /// other.
    pub fn new_64(addr64: [u64; 2]) -> (r: Self)
        ensures
            r@ == host_image(addr64@.map_values(|v: u64| v as nat), 8),
    {
        let ghost values = addr64@.map_values(|v: u64| v as nat);
        let mut addr8 = [0u8; 16];
        let mut i: usize = 0;
        while i < 2
            invariant
                i <= 2,
                values == addr64@.map_values(|v: u64| v as nat),
                addr8@.take(8 * i) == host_image(values.take(i as int), 8),
            decreases 2 - i,
        {
            let part = host_array::<8>(addr64[i] as u128);
            put(&mut addr8, 8 * i, &part);
            proof {
                lemma_host_image_grows(values, 8, i as int);
                assert(addr8@.take(8 * (i + 1)) =~= host_image(values.take(i + 1), 8));
            }
            i = i + 1;
        }
        proof {
            assert(addr8@.take(16) =~= addr8@);
            assert(values.take(2) =~= values);
        }
        Self { addr8 }
    }

    /// The address whose bytes are those of this number in memory.
    pub fn new_128(addr128: u128) -> (r: Self)
        ensures
            r@ == host_bytes(addr128 as nat, 16),
    {
        Self { addr8: host_array::<16>(addr128) }
    }
}

impl Default for Inet6Addr {
    /// The address whose bytes are all zero.
    fn default() -> (r: Self)
        ensures
            r@ == zeros(16),
    {
        let r = Self { addr8: [0u8; 16] };
        proof {
            assert(r@ =~= zeros(16));
        }
        r
    }
}

/// An IPv6 socket address as the operating system keeps it: the family, the flow
/// information and the scope as this machine writes numbers, the port and the address in
/// network order.
#[derive(Clone, Copy, Debug, PartialEq, Eq)]
pub struct Inet6SockAddr {
    pub family: u16,
    pub port: u16,
    pub flowinfo: u32,
    pub addr: Inet6Addr,
    pub scopeid: u32,
}

impl Inet6SockAddr {
    /// The twenty-eight bytes of the record in memory.
    pub open spec fn image(&self) -> Seq<u8> {
        host_bytes(self.family as nat, 2) + host_bytes(self.port as nat, 2) + host_bytes(
            self.flowinfo as nat,
            4,
        ) + self.addr@ + host_bytes(self.scopeid as nat, 4)
    }

    /// The twenty-eight bytes of the record in memory.
    pub fn to_bytes(&self) -> (r: [u8; 28])
        ensures
            r@ == self.image(),
    {
        let mut r = [0u8; 28];
        let family = host_array::<2>(self.family as u128);
        let port = host_array::<2>(self.port as u128);
        let flowinfo = host_array::<4>(self.flowinfo as u128);
        let scopeid = host_array::<4>(self.scopeid as u128);
        put(&mut r, 0, &family);
        put(&mut r, 2, &port);
        put(&mut r, 4, &flowinfo);
        put(&mut r, 8, &self.addr.addr8);
        put(&mut r, 24, &scopeid);
        proof {
            assert(r@ =~= self.image());
        }
        r
    }

    /// The record that lies in these twenty-eight bytes of memory.
    pub fn from_bytes(b: &[u8; 28]) -> (r: Self)
        ensures
            r.family == host_value(b@.subrange(0, 2)),
            r.port == host_value(b@.subrange(2, 4)),
            r.flowinfo == host_value(b@.subrange(4, 8)),
            r.addr@ == b@.subrange(8, 24),
            r.scopeid == host_value(b@.subrange(24, 28)),
            r.image() == b@,
    {
        let family = pick::<28, 2>(b, 0);
        let port = pick::<28, 2>(b, 2);
        let flowinfo = pick::<28, 4>(b, 4);
        let addr = pick::<28, 16>(b, 8);
        let scopeid = pick::<28, 4>(b, 24);
        proof {
            lemma_span_values();
            lemma_value_bound(family@);
            lemma_value_bound(port@);
            lemma_value_bound(flowinfo@);
            lemma_value_bound(scopeid@);
            lemma_bytes_of_value(family@);
            lemma_bytes_of_value(port@);
            lemma_bytes_of_value(flowinfo@);
            lemma_bytes_of_value(scopeid@);
        }
        let r = Self {
            family: host_number::<2>(&family) as u16,
            port: host_number::<2>(&port) as u16,
            flowinfo: host_number::<4>(&flowinfo) as u32,
            addr: Inet6Addr::new_8(addr),
            scopeid: host_number::<4>(&scopeid) as u32,
        };
        proof {
            assert(r.image() =~= b@);
        }
        r
    }
}

/// Two IPv6 records with the same bytes in memory are one record.
pub proof fn lemma_inet6_image_decides(a: Inet6SockAddr, b: Inet6SockAddr)
    requires
        a.image() == b.image(),
    ensures
        a == b,
{
    lemma_span_values();
    assert forall|x: nat, n: nat| #![trigger host_bytes(x, n)] true implies host_bytes(x, n).len()
        == n by {
        lemma_bytes_len(x, n);
    }
    assert(a.image().subrange(0, 2) =~= host_bytes(a.family as nat, 2));
    assert(b.image().subrange(0, 2) =~= host_bytes(b.family as nat, 2));
    assert(a.image().subrange(2, 4) =~= host_bytes(a.port as nat, 2));
    assert(b.image().subrange(2, 4) =~= host_bytes(b.port as nat, 2));
    assert(a.image().subrange(4, 8) =~= host_bytes(a.flowinfo as nat, 4));
    assert(b.image().subrange(4, 8) =~= host_bytes(b.flowinfo as nat, 4));
    assert(a.image().subrange(8, 24) =~= a.addr@);
    assert(b.image().subrange(8, 24) =~= b.addr@);
    assert(a.image().subrange(24, 28) =~= host_bytes(a.scopeid as nat, 4));
    assert(b.image().subrange(24, 28) =~= host_bytes(b.scopeid as nat, 4));
    lemma_value_of_bytes(a.family as nat, 2);
    lemma_value_of_bytes(b.family as nat, 2);
    lemma_value_of_bytes(a.port as nat, 2);
    lemma_value_of_bytes(b.port as nat, 2);
    lemma_value_of_bytes(a.flowinfo as nat, 4);
    lemma_value_of_bytes(b.flowinfo as nat, 4);
    lemma_value_of_bytes(a.scopeid as nat, 4);
    lemma_value_of_bytes(b.scopeid as nat, 4);
    assert(a.addr.addr8 =~= b.addr.addr8);
}

impl Default for Inet6SockAddr {
    /// The record of the IPv6 family with every other field zero.
    fn default() -> (r: Self)
        ensures
            r.family == AddressFamily::Inet6.spec_code(),
            r.port == 0,
            r.flowinfo == 0,
            r.addr@ == zeros(16),
            r.scopeid == 0,
    {
        Self {
            family: AddressFamily::Inet6.code() as u16,
            port: 0,
            flowinfo: 0,
            addr: Inet6Addr::default(),
            scopeid: 0,
        }
    }
}

/// A Unix socket address as the operating system keeps it: the family as this machine
/// writes numbers, then the path, closed and filled up by zero bytes.
#[derive(Clone, Copy, Debug, PartialEq, Eq)]
pub struct UnixSockAddr {
    pub family: u16,
    pub path: [u8; UNIX_PATH_LEN],
}

impl UnixSockAddr {
    /// The hundred and ten bytes of the record in memory.
    pub open spec fn image(&self) -> Seq<u8> {
        host_bytes(self.family as nat, 2) + self.path@
    }

    /// The hundred and ten bytes of the record in memory.
    pub fn to_bytes(&self) -> (r: [u8; 110])
        ensures
            r@ == self.image(),
    {
        let mut r = [0u8; 110];
        let family = host_array::<2>(self.family as u128);
        put(&mut r, 0, &family);
        put(&mut r, 2, &self.path);
        proof {
            assert(r@ =~= self.image());
        }
        r
    }

    /// The record that lies in these hundred and ten bytes of memory.
    pub fn from_bytes(b: &[u8; 110]) -> (r: Self)
        ensures
            r.family == host_value(b@.subrange(0, 2)),
            r.path@ == b@.subrange(2, 110),
            r.image() == b@,
    {
        let family = pick::<110, 2>(b, 0);
        let path = pick::<110, 108>(b, 2);
        proof {
            lemma_span_values();
            lemma_value_bound(family@);
            lemma_bytes_of_value(family@);
        }
        let r = Self { family: host_number::<2>(&family) as u16, path };
        proof {
            assert(r.image() =~= b@);
        }
        r
    }
}

/// Two Unix records with the same bytes in memory are one record.
pub proof fn lemma_unix_image_decides(a: UnixSockAddr, b: UnixSockAddr)
    requires
        a.image() == b.image(),
    ensures
        a == b,
{
    lemma_span_values();
    lemma_bytes_len(a.family as nat, 2);
    lemma_bytes_len(b.family as nat, 2);
    assert(a.image().subrange(0, 2) =~= host_bytes(a.family as nat, 2));
    assert(b.image().subrange(0, 2) =~= host_bytes(b.family as nat, 2));
    assert(a.image().subrange(2, 110) =~= a.path@);
    assert(b.image().subrange(2, 110) =~= b.path@);
    lemma_value_of_bytes(a.family as nat, 2);
    lemma_value_of_bytes(b.family as nat, 2);
    assert(a.path =~= b.path);
}

impl Default for UnixSockAddr {
    /// The record of the Unix family with an empty path.
    fn default() -> (r: Self)
        ensures
            r.family == AddressFamily::Unix.spec_code(),
            r.path@ == zeros(UNIX_PATH_LEN as nat),
    {
        let r = Self { family: AddressFamily::Unix.code() as u16, path: [0u8; UNIX_PATH_LEN] };
        proof {
            assert(r.path@ =~= zeros(UNIX_PATH_LEN as nat));
        }
        r
    }
}

} // verus!
