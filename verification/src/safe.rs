//! What is handed to the operating system: the numbers of a new socket and the
//! socket-address record of a bind target.

use crate::order::be_array;
use crate::order::be_bytes;
use crate::order::host_bytes;
use crate::order::host_value;
use crate::order::htonl;
use crate::order::htons;
use crate::order::lemma_bytes_len;
use crate::order::lemma_span_values;
use crate::order::lemma_value_of_bytes;
use crate::order::lemma_zero_bytes;
use crate::order::spec_htons;
use crate::order::zeros;
use crate::structs::AddressFamily;
use crate::structs::BindFamily;
use crate::structs::Inet6Addr;
use crate::structs::Inet6SockAddr;
use crate::structs::InetAddr;
use crate::structs::InetSockAddr;
use crate::structs::IpProto;
use crate::structs::SocketType;
use crate::structs::UnixSockAddr;
use crate::structs::INET6_SOCKADDR_LEN;
use crate::structs::INET_SOCKADDR_LEN;
use crate::structs::UNIX_PATH_LEN;
use crate::structs::UNIX_SOCKADDR_LEN;
use vstd::prelude::*;
use vstd::slice::slice_to_vec;
use vstd::utf8::encode_utf8;

verus! {

/// The three numbers that ask the operating system for a new socket.
#[derive(Clone, Copy, Debug, PartialEq, Eq)]
pub struct SocketCall {
    pub domain: i32,
    pub kind: i32,
    pub protocol: i32,
}

/// The numbers that ask for a socket of this family and type. Without a protocol the
/// operating system is asked to pick the one that fits the type.
pub fn safe_socket(af: AddressFamily, st: SocketType, pt: Option<IpProto>) -> (r: SocketCall)
    ensures
        r.domain == af.spec_code(),
        r.kind == st.spec_code(),
        r.protocol == match pt {
            Some(p) => p.spec_code(),
            None => IpProto::Ip.spec_code(),
        },
{
    let protocol = match pt {
        Some(p) => p.code(),
        None => IpProto::Ip.code(),
    };
    SocketCall { domain: af.code(), kind: st.code(), protocol }
}

/// The bytes in memory of the record of the IPv4 endpoint `ipaddr`:`port`.
pub open spec fn inet_image(ipaddr: u32, port: u16) -> Seq<u8> {
    host_bytes(AddressFamily::Inet.spec_code() as nat, 2) + be_bytes(port as nat, 2) + be_bytes(
        ipaddr as nat,
        4,
    ) + zeros(8)
}

/// The bytes in memory of the record of the IPv6 endpoint `ipaddr`, `port`.
pub open spec fn inet6_image(ipaddr: u128, port: u16) -> Seq<u8> {
    host_bytes(AddressFamily::Inet6.spec_code() as nat, 2) + be_bytes(port as nat, 2) + zeros(4)
        + be_bytes(ipaddr as nat, 16) + zeros(4)
}

/// The path field of the record of a Unix socket at `path`: the path, cut after 107 bytes,
/// then zero bytes up to the field's length, of which there is at least one.
pub open spec fn unix_path(path: Seq<u8>) -> Seq<u8> {
    let kept = if path.len() < UNIX_PATH_LEN - 1 {
        path.len() as int
    } else {
        UNIX_PATH_LEN - 1
    };
    path.take(kept) + zeros((UNIX_PATH_LEN - kept) as nat)
}

/// The path field holds 108 bytes. A path of up to 107 bytes stands in it whole, with zero
/// bytes after it; of a longer one the first 107 bytes stand in it, with one zero byte
/// after them.
pub proof fn lemma_unix_path(path: Seq<u8>)
    ensures
        unix_path(path).len() == UNIX_PATH_LEN,
        path.len() <= 107 ==> unix_path(path) == path + zeros((108 - path.len()) as nat),
        path.len() <= 107 ==> unix_path(path)[path.len() as int] == 0,
        path.len() >= 108 ==> unix_path(path) == path.take(107) + seq![0u8],
{
    if path.len() <= 107 {
        assert(path.take(path.len() as int) =~= path);
    } else {
        assert(zeros(1) =~= seq![0u8]);
    }
}

/// The bytes in memory of the record of a Unix socket at `path`.
pub open spec fn unix_image(path: Seq<u8>) -> Seq<u8> {
    host_bytes(AddressFamily::Unix.spec_code() as nat, 2) + unix_path(path)
}

/// The bytes in memory of the record of a bind target.
pub open spec fn sockaddr_image(bf: &BindFamily) -> Seq<u8> {
    match bf {
        BindFamily::Unix(path) => unix_image(encode_utf8(path@)),
        BindFamily::Inet(ipaddr, port) => inet_image(*ipaddr, *port),
        BindFamily::Inet6(ipaddr, port) => inet6_image(*ipaddr, *port),
    }
}

/// The record of the IPv4 endpoint `ipaddr`:`port`, both given in host order.
pub fn inet_sockaddr(ipaddr: u32, port: u16) -> (r: InetSockAddr)
    ensures
        r.family == AddressFamily::Inet.spec_code(),
        r.port == spec_htons(port),
        r.addr@ == be_bytes(ipaddr as nat, 4),
        r.reserved == 0,
        r.image() == inet_image(ipaddr, port),
{
    proof {
        lemma_zero_bytes(8);
    }
    InetSockAddr {
        family: AddressFamily::Inet.code() as u16,
        port: htons(port),
        addr: InetAddr::new_32(htonl(ipaddr)),
        reserved: 0,
    }
}

/// The record of the IPv6 endpoint `ipaddr`, `port`, both given in host order.
pub fn inet6_sockaddr(ipaddr: u128, port: u16) -> (r: Inet6SockAddr)
    ensures
        r.family == AddressFamily::Inet6.spec_code(),
        r.port == spec_htons(port),
        r.flowinfo == 0,
        r.addr@ == be_bytes(ipaddr as nat, 16),
        r.scopeid == 0,
        r.image() == inet6_image(ipaddr, port),
{
    proof {
        lemma_zero_bytes(4);
    }
    Inet6SockAddr {
        family: AddressFamily::Inet6.code() as u16,
        port: htons(port),
        flowinfo: 0,
        addr: Inet6Addr::new_8(be_array::<16>(ipaddr)),
        scopeid: 0,
    }
}

/// The record of a Unix socket at `path`. A path of more than 107 bytes is cut, not
/// refused.
pub fn unix_sockaddr(path: &str) -> (r: UnixSockAddr)
    ensures
        r.family == AddressFamily::Unix.spec_code(),
        r.path@ == unix_path(encode_utf8(path@)),
        r.image() == unix_image(encode_utf8(path@)),
{
    let bytes = path.as_bytes();
    let size = if bytes.len() < UNIX_PATH_LEN - 1 {
        bytes.len()
    } else {
        UNIX_PATH_LEN - 1
    };
    let mut stpath = [0u8; UNIX_PATH_LEN];
    let mut i: usize = 0;
    while i < size
        invariant
            i <= size < UNIX_PATH_LEN,
            size <= bytes@.len(),
            stpath@ == bytes@.take(i as int) + zeros((UNIX_PATH_LEN - i) as nat),
        decreases size - i,
    {
        stpath[i] = bytes[i];
        i = i + 1;
        proof {
            assert(stpath@ =~= bytes@.take(i as int) + zeros((UNIX_PATH_LEN - i) as nat));
        }
    }
    stpath[size] = 0;
    proof {
        assert(stpath@ =~= unix_path(bytes@));
    }
    UnixSockAddr { family: AddressFamily::Unix.code() as u16, path: stpath }
}

/// The bytes to submit for a bind or a connect to `bf`: the record of the target's family,
/// whole and at its exact length.
pub fn sockaddr(bf: &BindFamily) -> (r: Vec<u8>)
    ensures
        r@ == sockaddr_image(bf),
        r@.len() == match bf {
            BindFamily::Unix(_) => UNIX_SOCKADDR_LEN,
            BindFamily::Inet(_, _) => INET_SOCKADDR_LEN,
            BindFamily::Inet6(_, _) => INET6_SOCKADDR_LEN,
        },
        host_value(r@.take(2)) == bf.spec_family().spec_code(),
{
    let r = match bf {
        BindFamily::Unix(path) => {
            let bytes = unix_sockaddr(path.as_str()).to_bytes();
            slice_to_vec(bytes.as_slice())
        },
        BindFamily::Inet(ipaddr, port) => {
            let bytes = inet_sockaddr(*ipaddr, *port).to_bytes();
            slice_to_vec(bytes.as_slice())
        },
        BindFamily::Inet6(ipaddr, port) => {
            let bytes = inet6_sockaddr(*ipaddr, *port).to_bytes();
            slice_to_vec(bytes.as_slice())
        },
    };
    proof {
        let code = bf.spec_family().spec_code() as nat;
        lemma_span_values();
        lemma_bytes_len(code, 2);
        lemma_value_of_bytes(code, 2);
        assert(r@.take(2) =~= host_bytes(code, 2));
    }
    r
}

/// The bytes in memory of the record that an accept hands to the operating system to fill:
/// the family, and zero in every byte after it, `len` bytes in all.
pub open spec fn blank_image(family: AddressFamily, len: nat) -> Seq<u8> {
    host_bytes(family.spec_code() as nat, 2) + zeros((len - 2) as nat)
}

/// The record to hand to an accept of an IPv4 peer. Its length is the address length to
/// hand over with it.
pub fn inet_blank() -> (r: [u8; 16])
    ensures
        r@ == blank_image(AddressFamily::Inet, INET_SOCKADDR_LEN as nat),
{
    let r = InetSockAddr::default().to_bytes();
    proof {
        lemma_zero_bytes(2);
        lemma_zero_bytes(8);
        assert(r@ =~= blank_image(AddressFamily::Inet, INET_SOCKADDR_LEN as nat));
    }
    r
}

/// The record to hand to an accept of an IPv6 peer. Its length is the address length to
/// hand over with it.
pub fn inet6_blank() -> (r: [u8; 28])
    ensures
        r@ == blank_image(AddressFamily::Inet6, INET6_SOCKADDR_LEN as nat),
{
    let r = Inet6SockAddr::default().to_bytes();
    proof {
        lemma_zero_bytes(2);
        lemma_zero_bytes(4);
        assert(r@ =~= blank_image(AddressFamily::Inet6, INET6_SOCKADDR_LEN as nat));
    }
    r
}

/// The record to hand to an accept of a Unix peer. Its length is the address length to
/// hand over with it.
pub fn unix_blank() -> (r: [u8; 110])
    ensures
        r@ == blank_image(AddressFamily::Unix, UNIX_SOCKADDR_LEN as nat),
{
    let r = UnixSockAddr::default().to_bytes();
    proof {
        assert(r@ =~= blank_image(AddressFamily::Unix, UNIX_SOCKADDR_LEN as nat));
    }
    r
}

} // verus!
