use orb::io::ErrorKind;
use orb::net::{
    recovered_transport, target, tcp_target, unix_bind_step, unix_local_addr, AddrError, IpAddr,
    SocketAddr, Transport, UnifyAddr, UnixBindStep,
};

#[test]
fn ipv4_endpoints_as_text() {
    assert_eq!(SocketAddr::new(IpAddr::v4(127, 0, 0, 1), 8080).to_string(), "127.0.0.1:8080");
    assert_eq!(SocketAddr::new(IpAddr::v4(0, 0, 0, 0), 0).to_string(), "0.0.0.0:0");
    assert_eq!(
        SocketAddr::new(IpAddr::v4(255, 255, 255, 255), 65535).to_string(),
        "255.255.255.255:65535"
    );
    assert_eq!(SocketAddr::new(IpAddr::v4(10, 200, 30, 4), 100).to_string(), "10.200.30.4:100");
}

#[test]
fn ipv6_endpoints_as_text() {
    let cases: [(u128, u16, u32, &str); 12] = [
        (0, 0, 0, "[::]:0"),
        (1, 8080, 0, "[::1]:8080"),
        (0x0001_0000_0000_0000_0000_0000_0000_0000, 1, 0, "[1::]:1"),
        (0x0001_0002_0003_0004_0005_0006_0007_0008, 80, 0, "[1:2:3:4:5:6:7:8]:80"),
        (0x2001_0db8_0000_0000_0000_8a2e_0370_7334, 443, 0, "[2001:db8::8a2e:370:7334]:443"),
        // A single zero group is not shortened.
        (0x0001_0000_0003_0004_0005_0006_0007_0008, 80, 0, "[1:0:3:4:5:6:7:8]:80"),
        // Of two runs of the same length the first is shortened.
        (0x0001_0000_0000_0004_0005_0000_0000_0008, 80, 0, "[1::4:5:0:0:8]:80"),
        // The longer run is shortened, wherever it stands.
        (0x0001_0000_0000_0004_0000_0000_0000_0008, 80, 0, "[1:0:0:4::8]:80"),
        (0x0000_0000_0000_0000_0000_ffff_0102_0304, 80, 0, "[::ffff:1.2.3.4]:80"),
        (0x0000_0000_0000_0000_0000_0000_0102_0304, 80, 0, "[::102:304]:80"),
        (0xfe80_0000_0000_0000_0000_0000_0000_0001, 80, 3, "[fe80::1%3]:80"),
        (0xffff_ffff_ffff_ffff_ffff_ffff_ffff_ffff, 9, 0, "[ffff:ffff:ffff:ffff:ffff:ffff:ffff:ffff]:9"),
    ];
    for (ip, port, scope_id, text) in cases {
        assert_eq!(SocketAddr::V6 { ip, port, scope_id }.to_string(), text);
    }
}

#[test]
fn the_text_of_an_address_reads_back_as_that_address() {
    let mut addrs: Vec<SocketAddr> = Vec::new();
    let mut x: u128 = 0x9e37_79b9_7f4a_7c15_f39c_c060_5ced_c835;
    for i in 0..400u32 {
        // A cheap scramble, with groups zeroed out here and there so that
        // every shape of `::` occurs.
        x = x.wrapping_mul(0x2545_f491_4f6c_dd1d_0000_0000_0000_0001).rotate_left(29) ^ (i as u128);
        let mut ip = x;
        for g in 0..8 {
            if (x >> (g * 3)) & 3 != 0 {
                ip &= !(0xffffu128 << (16 * g));
            }
        }
        let port = (x >> 64) as u16;
        addrs.push(SocketAddr::V6 { ip, port, scope_id: if i % 5 == 0 { i } else { 0 } });
        addrs.push(SocketAddr::V6 { ip: x, port, scope_id: 0 });
        addrs.push(SocketAddr::V6 { ip: 0xffff_0000_0000 | (x >> 96), port, scope_id: 0 });
        addrs.push(SocketAddr::V4 { ip: (x >> 32) as u32, port });
    }
    for a in addrs {
        let text = a.to_string();
        assert_eq!(UnifyAddr::parse(&text), Ok(UnifyAddr::Socket(a)), "{}", text);
        assert!(UnifyAddr::Socket(a).eq_str(&text));
    }
    let p = UnifyAddr::Path(String::from("/var/run/app.sock"));
    assert_eq!(UnifyAddr::parse(&p.to_string()), Ok(p));
}

#[test]
fn a_connection_goes_where_the_address_says() {
    let a = SocketAddr::new(IpAddr::v4(127, 0, 0, 1), 0);
    assert_eq!(target(Ok(UnifyAddr::Socket(a))), Ok(UnifyAddr::Socket(a)));
    let p = UnifyAddr::Path(String::from("/tmp/x.sock"));
    assert_eq!(target(Ok(UnifyAddr::Path(String::from("/tmp/x.sock")))), Ok(p));
    for e in [AddrError::Malformed, AddrError::Unresolved] {
        let err = target(Err(e)).unwrap_err();
        assert_eq!(err.kind(), ErrorKind::Other);
        assert_eq!(err.message, "addr invalid");
    }
}

#[test]
fn tcp_takes_endpoints_only() {
    let a = SocketAddr::new(IpAddr::v4(127, 0, 0, 1), 0);
    assert_eq!(tcp_target(Ok(UnifyAddr::Socket(a))), Ok(a));
    let on_path = tcp_target(Ok(UnifyAddr::Path(String::from("/tmp/x.sock")))).unwrap_err();
    assert_eq!(on_path.kind(), ErrorKind::Other);
    let on_error = tcp_target(Err(AddrError::Malformed)).unwrap_err();
    assert_eq!(on_error.kind(), ErrorKind::Other);
}

#[test]
fn a_kept_descriptor_is_rebuilt_by_the_text_it_was_bound_to() {
    assert_eq!(recovered_transport("127.0.0.1:8080"), Ok(Transport::Tcp));
    assert_eq!(recovered_transport("[::1]:8080"), Ok(Transport::Tcp));
    assert_eq!(recovered_transport("/tmp/x.sock"), Ok(Transport::Unix));
    // A host name is not looked up here.
    let e = recovered_transport("localhost:8080").unwrap_err();
    assert_eq!(e.kind(), ErrorKind::Other);
}

#[test]
fn a_stale_socket_file_is_removed_before_the_bind() {
    assert_eq!(unix_bind_step(true), UnixBindStep::RemoveThenBind);
    assert_eq!(unix_bind_step(false), UnixBindStep::Bind);
}

#[test]
fn only_tcp_streams_name_their_peer() {
    assert_eq!(Transport::Tcp.peer_addr_support(), Ok(()));
    let e = Transport::Unix.peer_addr_support().unwrap_err();
    assert_eq!(e.kind(), ErrorKind::AddrNotAvailable);
    assert_eq!(e.message, "unix socket don't support peer_addr");
}

#[test]
fn a_unix_listener_without_a_path_has_no_local_address() {
    assert_eq!(unix_local_addr(Some(String::from("/tmp/x.sock"))), Ok(String::from("/tmp/x.sock")));
    let e = unix_local_addr(None).unwrap_err();
    assert_eq!(e.kind(), ErrorKind::Other);
    assert_eq!(e.message, "No pathname for Unix socket");
}
