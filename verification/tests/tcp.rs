use kvstore::tcp::ip::{admits, IpAddress, IpNetList, IpNetwork};
use kvstore::tcp::limit::{ConnectionError, ConnectionLimit};

fn v4(a: u8, b: u8, c: u8, d: u8) -> IpAddress {
    IpAddress::V4(u32::from_be_bytes([a, b, c, d]))
}

fn net(addr: IpAddress, prefix: u8) -> IpNetwork {
    IpNetwork::new(addr, prefix).unwrap()
}

#[test]
fn ipv4_networks_contain_their_range() {
    let n = net(v4(10, 0, 0, 0), 8);
    assert!(n.contains(&v4(10, 1, 2, 3)));
    assert!(n.contains(&v4(10, 255, 255, 255)));
    assert!(!n.contains(&v4(11, 0, 0, 0)));
    assert!(!n.contains(&v4(9, 255, 255, 255)));
    let host_bits = net(v4(192, 168, 1, 77), 24);
    assert!(host_bits.contains(&v4(192, 168, 1, 0)));
    assert!(!host_bits.contains(&v4(192, 168, 2, 0)));
    let all = net(v4(1, 2, 3, 4), 0);
    assert!(all.contains(&v4(255, 255, 255, 255)));
    let one = net(v4(1, 2, 3, 4), 32);
    assert!(one.contains(&v4(1, 2, 3, 4)));
    assert!(!one.contains(&v4(1, 2, 3, 5)));
    assert!(!n.contains(&IpAddress::V6(1)));
}

#[test]
fn ipv6_networks() {
    let n = net(IpAddress::V6(0xfe80u128 << 112), 10);
    assert!(n.contains(&IpAddress::V6((0xfe80u128 << 112) | 1)));
    assert!(!n.contains(&IpAddress::V6(1)));
    assert!(!n.contains(&v4(0, 0, 0, 1)));
    assert!(IpNetwork::new(IpAddress::V6(0), 128).is_some());
    assert!(IpNetwork::new(IpAddress::V6(0), 129).is_none());
    assert!(IpNetwork::new(v4(0, 0, 0, 0), 33).is_none());
}

#[test]
fn lists_and_admission() {
    let white = IpNetList::new(vec![net(v4(10, 0, 0, 0), 8), net(v4(127, 0, 0, 1), 32)]);
    let black = IpNetList::new(vec![net(v4(10, 9, 0, 0), 16)]);
    assert!(white.contains(&v4(127, 0, 0, 1)));
    assert!(!white.contains(&v4(8, 8, 8, 8)));
    let w = Some(white);
    let b = Some(black);
    assert!(admits(&w, &b, &v4(10, 1, 1, 1)));
    assert!(!admits(&w, &b, &v4(10, 9, 1, 1)));
    assert!(!admits(&w, &None, &v4(8, 8, 8, 8)));
    assert!(admits(&None, &None, &v4(8, 8, 8, 8)));
    assert!(!admits(&None, &b, &v4(10, 9, 0, 1)));
    assert!(!IpNetList::new(vec![]).contains(&v4(1, 1, 1, 1)));
}

#[test]
fn connection_limit() {
    let mut l = ConnectionLimit::new(2);
    assert_eq!(l.open_connection(), Ok(()));
    assert_eq!(l.open_connection(), Ok(()));
    assert_eq!(l.open_connection(), Err(ConnectionError::MaxConnectionsReached));
    assert_eq!(l.active_connections(), 2);
    assert!(l.close_connection());
    assert_eq!(l.active_connections(), 1);
    assert!(l.close_connection());
    assert!(!l.close_connection());
    assert_eq!(l.active_connections(), 0);
    let mut zero = ConnectionLimit::new(0);
    assert_eq!(zero.open_connection(), Err(ConnectionError::MaxConnectionsReached));
}
