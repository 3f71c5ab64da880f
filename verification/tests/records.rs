use mzsocket::order::htons;
use mzsocket::safe::inet6_blank;
use mzsocket::safe::inet6_sockaddr;
use mzsocket::safe::inet_blank;
use mzsocket::safe::inet_sockaddr;
use mzsocket::safe::safe_socket;
use mzsocket::safe::sockaddr;
use mzsocket::safe::unix_blank;
use mzsocket::safe::unix_sockaddr;
use mzsocket::structs::Inet6Addr;
use mzsocket::structs::InetAddr;
use mzsocket::structs::INET6_SOCKADDR_LEN;
use mzsocket::structs::INET_SOCKADDR_LEN;
use mzsocket::structs::UNIX_PATH_LEN;
use mzsocket::structs::UNIX_SOCKADDR_LEN;
use mzsocket::AddressFamily;
use mzsocket::BindFamily;
use mzsocket::Inet6SockAddr;
use mzsocket::InetSockAddr;
use mzsocket::IpProto;
use mzsocket::SocketType;
use mzsocket::UnixSockAddr;

#[test]
fn address_family_codes() {
    assert_eq!(AddressFamily::Unspec.code(), 0);
    assert_eq!(AddressFamily::Unix.code(), 1);
    assert_eq!(AddressFamily::Inet.code(), 2);
    assert_eq!(AddressFamily::Inet6.code(), 10);
}

#[test]
fn socket_type_codes() {
    assert_eq!(SocketType::Stream.code(), 1);
    assert_eq!(SocketType::DataGram.code(), 2);
    assert_eq!(SocketType::Raw.code(), 3);
    assert_eq!(SocketType::SeqPacket.code(), 5);
    assert_eq!(SocketType::Packet.code(), 10);
}

#[test]
fn protocol_codes() {
    assert_eq!(IpProto::Ip.code(), 0);
    assert_eq!(IpProto::Icmp.code(), 1);
    assert_eq!(IpProto::Igmp.code(), 2);
    assert_eq!(IpProto::IpIp.code(), 4);
    assert_eq!(IpProto::Tcp.code(), 6);
    assert_eq!(IpProto::Udp.code(), 17);
    assert_eq!(IpProto::Ipv6.code(), 41);
    assert_eq!(IpProto::Gre.code(), 47);
    assert_eq!(IpProto::Esp.code(), 50);
    assert_eq!(IpProto::Ah.code(), 51);
}

#[test]
fn bind_target_families() {
    assert_eq!(BindFamily::Unix(String::from("/tmp/s")).family(), AddressFamily::Unix);
    assert_eq!(BindFamily::Inet(0, 0).family(), AddressFamily::Inet);
    assert_eq!(BindFamily::Inet6(0, 0).family(), AddressFamily::Inet6);
}

#[test]
fn new_socket_numbers() {
    let call = safe_socket(AddressFamily::Inet, SocketType::Stream, Some(IpProto::Tcp));
    assert_eq!((call.domain, call.kind, call.protocol), (2, 1, 6));
    let call = safe_socket(AddressFamily::Inet6, SocketType::DataGram, None);
    assert_eq!((call.domain, call.kind, call.protocol), (10, 2, 0));
    let call = safe_socket(AddressFamily::Unix, SocketType::SeqPacket, Some(IpProto::Ip));
    assert_eq!((call.domain, call.kind, call.protocol), (1, 5, 0));
}

#[test]
fn record_lengths() {
    assert_eq!(INET_SOCKADDR_LEN, 16);
    assert_eq!(INET6_SOCKADDR_LEN, 28);
    assert_eq!(UNIX_PATH_LEN, 108);
    assert_eq!(UNIX_SOCKADDR_LEN, 110);
    assert_eq!(InetSockAddr::default().to_bytes().len(), INET_SOCKADDR_LEN);
    assert_eq!(Inet6SockAddr::default().to_bytes().len(), INET6_SOCKADDR_LEN);
    assert_eq!(UnixSockAddr::default().to_bytes().len(), UNIX_SOCKADDR_LEN);
}

#[test]
fn default_records_hold_the_family_and_zero() {
    let r = InetSockAddr::default();
    assert_eq!((r.family, r.port, r.addr.addr8, r.reserved), (2, 0, [0; 4], 0));
    let r = Inet6SockAddr::default();
    assert_eq!((r.family, r.port, r.flowinfo, r.addr.addr8, r.scopeid), (10, 0, 0, [0; 16], 0));
    let r = UnixSockAddr::default();
    assert_eq!((r.family, r.path), (1, [0; 108]));
    assert_eq!(InetAddr::default().addr8, [0; 4]);
    assert_eq!(Inet6Addr::default().addr8, [0; 16]);
}

#[test]
fn blank_records_for_accept() {
    let mut want = [0u8; 16];
    want[..2].copy_from_slice(&2u16.to_ne_bytes());
    assert_eq!(inet_blank(), want);
    let mut want = [0u8; 28];
    want[..2].copy_from_slice(&10u16.to_ne_bytes());
    assert_eq!(inet6_blank(), want);
    let mut want = [0u8; 110];
    want[..2].copy_from_slice(&1u16.to_ne_bytes());
    assert_eq!(unix_blank(), want);
}

#[test]
fn inet_record_is_in_network_order() {
    let r = inet_sockaddr(0x7f000001, 8080);
    assert_eq!(r.family, 2);
    assert_eq!(r.port, 8080u16.to_be());
    assert_eq!(r.port, htons(8080));
    assert_eq!(r.addr.addr8, [127, 0, 0, 1]);
    assert_eq!(r.reserved, 0);
    let bytes = r.to_bytes();
    assert_eq!(bytes[..2], 2u16.to_ne_bytes());
    assert_eq!(bytes[2..4], [0x1f, 0x90]);
    assert_eq!(bytes[4..8], [127, 0, 0, 1]);
    assert_eq!(bytes[8..], [0; 8]);
}

#[test]
fn inet6_record_is_in_network_order() {
    let r = inet6_sockaddr(1, 443);
    assert_eq!(r.family, 10);
    assert_eq!(r.port, 443u16.to_be());
    assert_eq!(r.flowinfo, 0);
    assert_eq!(r.addr.addr8, [0, 0, 0, 0, 0, 0, 0, 0, 0, 0, 0, 0, 0, 0, 0, 1]);
    assert_eq!(r.scopeid, 0);
    let r = inet6_sockaddr(0x20010db8_00000000_00000000_0000ff00, 0x0102);
    let bytes = r.to_bytes();
    assert_eq!(bytes[..2], 10u16.to_ne_bytes());
    assert_eq!(bytes[2..4], [1, 2]);
    assert_eq!(bytes[4..8], [0; 4]);
    assert_eq!(bytes[8..24], [0x20, 0x01, 0x0d, 0xb8, 0, 0, 0, 0, 0, 0, 0, 0, 0, 0, 0xff, 0]);
    assert_eq!(bytes[24..], [0; 4]);
}

#[test]
fn unix_path_is_closed_by_zero() {
    let r = unix_sockaddr("/tmp/sock");
    assert_eq!(r.family, 1);
    assert_eq!(&r.path[..9], b"/tmp/sock");
    assert_eq!(r.path[9..], [0; 99]);
    let r = unix_sockaddr("");
    assert_eq!(r.path, [0; 108]);
}

#[test]
fn unix_path_of_every_length_up_to_107_is_kept() {
    for n in 0..=107usize {
        let path = "p".repeat(n);
        let r = unix_sockaddr(&path);
        assert_eq!(r.path.len(), 108);
        assert_eq!(&r.path[..n], path.as_bytes());
        assert!(r.path[n..].iter().all(|b| *b == 0));
    }
}

#[test]
fn unix_path_longer_than_107_is_cut() {
    for n in [108usize, 109, 200, 4096] {
        let path: String = (0..n).map(|i| (b'a' + (i % 26) as u8) as char).collect();
        let r = unix_sockaddr(&path);
        assert_eq!(&r.path[..107], &path.as_bytes()[..107]);
        assert_eq!(r.path[107], 0);
    }
}

#[test]
fn unix_path_is_cut_by_bytes() {
    let path = "\u{e9}".repeat(60);
    assert_eq!(path.len(), 120);
    let r = unix_sockaddr(&path);
    assert_eq!(&r.path[..107], &path.as_bytes()[..107]);
    assert_eq!(r.path[107], 0);
}

#[test]
fn records_to_submit() {
    let bytes = sockaddr(&BindFamily::Inet(0x0a000001, 22));
    assert_eq!(bytes.len(), 16);
    assert_eq!(bytes, inet_sockaddr(0x0a000001, 22).to_bytes());
    assert_eq!(u16::from_ne_bytes([bytes[0], bytes[1]]), 2);
    let bytes = sockaddr(&BindFamily::Inet6(7, 22));
    assert_eq!(bytes.len(), 28);
    assert_eq!(bytes, inet6_sockaddr(7, 22).to_bytes());
    assert_eq!(u16::from_ne_bytes([bytes[0], bytes[1]]), 10);
    let bytes = sockaddr(&BindFamily::Unix(String::from("/run/x")));
    assert_eq!(bytes.len(), 110);
    assert_eq!(bytes, unix_sockaddr("/run/x").to_bytes());
    assert_eq!(u16::from_ne_bytes([bytes[0], bytes[1]]), 1);
    assert_eq!(&bytes[2..8], b"/run/x");
    let long = "x".repeat(300);
    let bytes = sockaddr(&BindFamily::Unix(long));
    assert_eq!(bytes.len(), 110);
    assert_eq!(bytes[2..109], [b'x'; 107]);
    assert_eq!(bytes[109], 0);
}

#[test]
fn records_read_back_from_their_bytes() {
    let r = inet_sockaddr(0xc0a80001, 65535);
    assert_eq!(InetSockAddr::from_bytes(&r.to_bytes()), r);
    let r = InetSockAddr { family: 0x1234, port: 0x5678, addr: InetAddr::new_8([9, 8, 7, 6]), reserved: 0x0102030405060708 };
    assert_eq!(InetSockAddr::from_bytes(&r.to_bytes()), r);
    let r = Inet6SockAddr { family: 10, port: 0xaabb, flowinfo: 0x01020304, addr: Inet6Addr::new_128(77), scopeid: 0x0a0b0c0d };
    assert_eq!(Inet6SockAddr::from_bytes(&r.to_bytes()), r);
    let r = unix_sockaddr("/tmp/abc");
    assert_eq!(UnixSockAddr::from_bytes(&r.to_bytes()), r);
    let mut bytes = [0u8; 16];
    for (i, b) in bytes.iter_mut().enumerate() {
        *b = i as u8 + 1;
    }
    let r = InetSockAddr::from_bytes(&bytes);
    assert_eq!(r.family, u16::from_ne_bytes([1, 2]));
    assert_eq!(r.port, u16::from_ne_bytes([3, 4]));
    assert_eq!(r.addr.addr8, [5, 6, 7, 8]);
    assert_eq!(r.reserved, u64::from_ne_bytes([9, 10, 11, 12, 13, 14, 15, 16]));
    assert_eq!(r.to_bytes(), bytes);
}

#[test]
fn addresses_from_numbers_in_memory() {
    assert_eq!(InetAddr::new_8([1, 2, 3, 4]).addr8, [1, 2, 3, 4]);
    assert_eq!(InetAddr::new_32(0x01020304).addr8, 0x01020304u32.to_ne_bytes());
    assert_eq!(InetAddr::new(0x01020304).addr8, 0x01020304u32.to_ne_bytes());
    assert_eq!(InetAddr::new(0).addr8, [0; 4]);
    let pair = InetAddr::new_16([0x0102, 0x0304]).addr8;
    assert_eq!(pair[..2], 0x0102u16.to_ne_bytes());
    assert_eq!(pair[2..], 0x0304u16.to_ne_bytes());
}

#[test]
fn long_addresses_from_numbers_in_memory() {
    let bytes: [u8; 16] = [0, 1, 2, 3, 4, 5, 6, 7, 8, 9, 10, 11, 12, 13, 14, 15];
    assert_eq!(Inet6Addr::new_8(bytes).addr8, bytes);
    let mut a16 = [0u16; 8];
    for i in 0..8 {
        a16[i] = u16::from_ne_bytes([bytes[2 * i], bytes[2 * i + 1]]);
    }
    assert_eq!(Inet6Addr::new_16(a16).addr8, bytes);
    let mut a32 = [0u32; 4];
    for i in 0..4 {
        a32[i] = u32::from_ne_bytes([bytes[4 * i], bytes[4 * i + 1], bytes[4 * i + 2], bytes[4 * i + 3]]);
    }
    assert_eq!(Inet6Addr::new_32(a32).addr8, bytes);
    let mut lo = [0u8; 8];
    let mut hi = [0u8; 8];
    lo.copy_from_slice(&bytes[..8]);
    hi.copy_from_slice(&bytes[8..]);
    let a64 = [u64::from_ne_bytes(lo), u64::from_ne_bytes(hi)];
    assert_eq!(Inet6Addr::new_64(a64).addr8, bytes);
    assert_eq!(Inet6Addr::new_128(u128::from_ne_bytes(bytes)).addr8, bytes);
}
