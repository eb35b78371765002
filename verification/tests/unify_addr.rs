use orb::io::ErrorKind;
use orb::net::{AddrError, IpAddr, SocketAddr, Transport, UnifyAddr};

#[test]
fn test_unify_addr_from_socket_addr_v4() {
    let socket_v4 = SocketAddr::new(IpAddr::v4(127, 0, 0, 1), 8080);
    let unify_addr: UnifyAddr = socket_v4.into();

    match unify_addr {
        UnifyAddr::Socket(SocketAddr::V4 { ip, port }) => {
            assert_eq!(ip, 0x7f00_0001);
            assert_eq!(port, 8080);
        }
        _ => panic!("Expected SocketAddrV4"),
    }
}

#[test]
fn test_unify_addr_from_socket_addr_v6() {
    let socket_v6 = SocketAddr::V6 { ip: 1, port: 9090, scope_id: 0 };
    let unify_addr: UnifyAddr = socket_v6.into();

    match unify_addr {
        UnifyAddr::Socket(SocketAddr::V6 { ip, port, .. }) => {
            assert_eq!(ip, 1);
            assert_eq!(port, 9090);
        }
        _ => panic!("Expected SocketAddrV6"),
    }
}

#[test]
fn test_unify_addr_from_socket_addr() {
    let ipv4_addr = IpAddr::v4(192, 168, 1, 1);
    let socket_addr = SocketAddr::new(ipv4_addr, 3000);
    let unify_addr: UnifyAddr = socket_addr.into();

    match unify_addr {
        UnifyAddr::Socket(addr) => {
            assert_eq!(addr.ip(), ipv4_addr);
            assert_eq!(addr.port(), 3000);
        }
        _ => panic!("Expected SocketAddr"),
    }
}

#[test]
fn test_unify_addr_from_ip_port_tuple() {
    let ipv4_addr = IpAddr::v4(127, 0, 0, 1);
    let port = 5000u16;
    let unify_addr: UnifyAddr = (ipv4_addr, port).into();

    match unify_addr {
        UnifyAddr::Socket(addr) => {
            assert_eq!(addr.ip(), ipv4_addr);
            assert_eq!(addr.port(), 5000);
        }
        _ => panic!("Expected SocketAddr from (IpAddr, u16) tuple"),
    }

    // Test with the IPv6 loopback address
    let ip_addr = IpAddr::V6(1);
    let port = 6000u16;
    let unify_addr: UnifyAddr = (ip_addr, port).into();

    match unify_addr {
        UnifyAddr::Socket(addr) => {
            assert_eq!(addr.ip(), IpAddr::V6(1));
            assert_eq!(addr.port(), 6000);
        }
        _ => panic!("Expected SocketAddr from (IpAddr, u16) tuple with IpAddr"),
    }
}

#[test]
fn test_unify_addr_from_path_buf() {
    let path = String::from("/tmp/test.sock");
    let unify_addr: UnifyAddr = path.clone().into();

    match unify_addr {
        UnifyAddr::Path(p) => {
            assert_eq!(p, path);
        }
        _ => panic!("Expected PathBuf"),
    }
}

#[test]
fn test_unify_addr_display() {
    // Test SocketAddrV4 display
    let socket_v4 = SocketAddr::new(IpAddr::v4(127, 0, 0, 1), 8080);
    let unify_addr: UnifyAddr = socket_v4.into();
    assert_eq!(unify_addr.to_string(), "127.0.0.1:8080");

    // Test PathBuf display
    let path = String::from("/tmp/test.sock");
    let unify_path: UnifyAddr = path.into();
    assert_eq!(unify_path.to_string(), "/tmp/test.sock");
}

#[test]
fn test_unify_addr_equality() {
    // Test SocketAddrV4 equality
    let addr1: UnifyAddr = SocketAddr::new(IpAddr::v4(127, 0, 0, 1), 8080).into();
    let addr2: UnifyAddr = SocketAddr::new(IpAddr::v4(127, 0, 0, 1), 8080).into();
    assert_eq!(addr1, addr2);

    // Test PathBuf equality
    let path = String::from("/tmp/test.sock");
    let path1: UnifyAddr = path.clone().into();
    let path2: UnifyAddr = path.into();
    assert_eq!(path1, path2);

    // Test inequality
    let addr3: UnifyAddr = SocketAddr::new(IpAddr::v4(192, 168, 1, 1), 8080).into();
    assert_ne!(addr1, addr3);

    // Test different types
    let path_diff: UnifyAddr = String::from("/tmp/test.sock").into();
    assert_ne!(addr1, path_diff);
}

#[test]
fn test_unify_addr_parse() {
    // Test TCP address parsing
    let tcp_addr = UnifyAddr::parse("127.0.0.1:8080").expect("Failed to parse TCP address");
    match tcp_addr {
        UnifyAddr::Socket(addr) => {
            assert_eq!(addr.ip(), IpAddr::v4(127, 0, 0, 1));
            assert_eq!(addr.port(), 8080);
        }
        _ => panic!("Expected Socket address"),
    }

    // Test Unix socket path parsing
    let unix_addr = UnifyAddr::parse("/tmp/test.sock").expect("Failed to parse Unix address");
    match unix_addr {
        UnifyAddr::Path(path) => {
            assert_eq!(path, String::from("/tmp/test.sock"));
        }
        _ => panic!("Expected Path address"),
    }

    // Test parse does not resolve
    let invalid_tcp = UnifyAddr::parse("www.baidu.com");
    assert!(invalid_tcp.is_err());

    // Test invalid TCP address
    let invalid_tcp = UnifyAddr::parse("invalid_address");
    assert!(invalid_tcp.is_err());

    // Test IPv6 address
    let ipv6_addr = UnifyAddr::parse("[::1]:8080").expect("Failed to parse IPv6 address");
    match ipv6_addr {
        UnifyAddr::Socket(addr) => {
            assert_eq!(addr.port(), 8080);
        }
        _ => panic!("Expected Socket address"),
    }
}

#[test]
fn test_unify_addr_to_socket_addrs() {
    // Test SocketAddr conversion
    let socket_addr = SocketAddr::new(IpAddr::v4(127, 0, 0, 1), 8080);
    let unify_addr: UnifyAddr = socket_addr.into();

    let addrs = unify_addr.to_socket_addrs().expect("Failed to convert to socket addrs");
    let mut addrs = addrs.into_iter();
    let addr = addrs.next().expect("Expected at least one address");
    assert_eq!(addr, socket_addr);
    assert!(addrs.next().is_none()); // Should only have one address

    // Test SocketAddrV6 conversion
    let socket_v6 = SocketAddr::V6 { ip: 1, port: 8080, scope_id: 0 };
    let unify_addr: UnifyAddr = socket_v6.into();

    let addrs = unify_addr.to_socket_addrs().expect("Failed to convert to socket addrs");
    let mut addrs = addrs.into_iter();
    let addr = addrs.next().expect("Expected at least one address");
    assert_eq!(addr, socket_v6);
    assert!(addrs.next().is_none()); // Should only have one address

    // Test Path conversion should fail
    let path = String::from("/tmp/test.sock");
    let unify_addr: UnifyAddr = path.into();

    let result = unify_addr.to_socket_addrs();
    assert!(result.is_err());
    assert_eq!(result.unwrap_err().kind(), ErrorKind::InvalidInput);
}

#[test]
fn parse_reads_a_path_whatever_follows_the_slash() {
    assert_eq!(UnifyAddr::parse("/tmp/x.sock"), Ok(UnifyAddr::Path(String::from("/tmp/x.sock"))));
    assert_eq!(UnifyAddr::parse("/"), Ok(UnifyAddr::Path(String::from("/"))));
    assert_eq!(UnifyAddr::parse("/1.2.3.4:80"), Ok(UnifyAddr::Path(String::from("/1.2.3.4:80"))));
    assert_eq!(UnifyAddr::parse("/tmp/ü.sock"), Ok(UnifyAddr::Path(String::from("/tmp/ü.sock"))));
}

#[test]
fn parse_rejects_what_is_not_numeric() {
    for text in [
        "",
        "not an address",
        "localhost",
        "localhost:80",
        "tmp/x.sock",
        "127.0.0.1",
        "127.0.0.1:",
        ":80",
        "127.0.0.1:65536",
        "127.0.0.1:-1",
        "127.0.0.1:8a",
        "127.0.0.1:80 ",
        " 127.0.0.1:80",
        "127.0.0.1:80:80",
        "256.0.0.1:80",
        "1.2.3:80",
        "1.2.3.4.5:80",
        "1..3.4:80",
        "01.2.3.4:80",
        "1.2.3.04:80",
        "1.2.3.1000:80",
        "::1:80",
        "[::1]",
        "[::1]80",
        "[::1]:",
        "[::1:80",
        "::1]:80",
        "[1:2:3:4:5:6:7]:80",
        "[1:2:3:4:5:6:7:8:9]:80",
        "[1:2:3:4:5:6:7:8::]:80",
        "[::1:2:3:4:5:6:7:8]:80",
        "[1::2::3]:80",
        "[:::]:80",
        "[:1::]:80",
        "[::1:]:80",
        "[12345::]:80",
        "[g::]:80",
        "[1.2.3.4::]:80",
        "[::1.2.3.4:5]:80",
        "[1:2:3:4:5:6:7:1.2.3.4]:80",
        "[::1%]:80",
        "[::1%x]:80",
        "[::1%4294967296]:80",
        "[]:80",
        "[127.0.0.1]:80",
        "é:80",
    ] {
        assert_eq!(UnifyAddr::parse(text), Err(AddrError::Malformed), "{:?}", text);
    }
}

#[test]
fn parse_reads_ipv4_endpoints() {
    let cases: [(&str, u32, u16); 6] = [
        ("127.0.0.1:8080", 0x7f00_0001, 8080),
        ("0.0.0.0:0", 0, 0),
        ("255.255.255.255:65535", 0xffff_ffff, 65535),
        ("1.2.3.4:0000000080", 0x0102_0304, 80),
        ("192.168.1.10:443", 0xc0a8_010a, 443),
        ("10.0.0.0:1", 0x0a00_0000, 1),
    ];
    for (text, ip, port) in cases {
        assert_eq!(
            UnifyAddr::parse(text),
            Ok(UnifyAddr::Socket(SocketAddr::V4 { ip, port })),
            "{:?}",
            text
        );
    }
}

#[test]
fn parse_reads_ipv6_endpoints() {
    let cases: [(&str, u128, u16, u32); 14] = [
        ("[::1]:8080", 1, 8080, 0),
        ("[::]:0", 0, 0, 0),
        ("[1::]:1", 0x0001_0000_0000_0000_0000_0000_0000_0000, 1, 0),
        ("[1:2:3:4:5:6:7:8]:80", 0x0001_0002_0003_0004_0005_0006_0007_0008, 80, 0),
        ("[1:2:3:4:5:6:7::]:80", 0x0001_0002_0003_0004_0005_0006_0007_0000, 80, 0),
        ("[::2:3:4:5:6:7:8]:80", 0x0000_0002_0003_0004_0005_0006_0007_0008, 80, 0),
        ("[fe80::1%3]:80", 0xfe80_0000_0000_0000_0000_0000_0000_0001, 80, 3),
        ("[fe80::1%0]:80", 0xfe80_0000_0000_0000_0000_0000_0000_0001, 80, 0),
        ("[FFFF:abcd::0]:80", 0xffff_abcd_0000_0000_0000_0000_0000_0000, 80, 0),
        ("[::ffff:1.2.3.4]:80", 0x0000_0000_0000_0000_0000_ffff_0102_0304, 80, 0),
        ("[::1.2.3.4]:80", 0x0000_0000_0000_0000_0000_0000_0102_0304, 80, 0),
        ("[1:2:3:4:5:6:1.2.3.4]:80", 0x0001_0002_0003_0004_0005_0006_0102_0304, 80, 0),
        ("[1::1.2.3.4]:80", 0x0001_0000_0000_0000_0000_0000_0102_0304, 80, 0),
        ("[2001:db8::8a2e:370:7334]:65535", 0x2001_0db8_0000_0000_0000_8a2e_0370_7334, 65535, 0),
    ];
    for (text, ip, port, scope_id) in cases {
        assert_eq!(
            UnifyAddr::parse(text),
            Ok(UnifyAddr::Socket(SocketAddr::V6 { ip, port, scope_id })),
            "{:?}",
            text
        );
    }
}

#[test]
fn from_str_is_parse() {
    let a: Result<UnifyAddr, AddrError> = "10.1.2.3:9".parse();
    assert_eq!(a, UnifyAddr::parse("10.1.2.3:9"));
    let b: Result<UnifyAddr, AddrError> = "example.org:9".parse();
    assert_eq!(b, Err(AddrError::Malformed));
}

#[test]
fn resolve_takes_numeric_text_without_lookup() {
    let r = UnifyAddr::resolve("127.0.0.1:8080", |_| panic!("no lookup for numeric text"));
    assert_eq!(r, Ok(UnifyAddr::Socket(SocketAddr::new(IpAddr::v4(127, 0, 0, 1), 8080))));
    let p = UnifyAddr::resolve("/tmp/x.sock", |_| panic!("no lookup for a path"));
    assert_eq!(p, Ok(UnifyAddr::Path(String::from("/tmp/x.sock"))));
}

#[test]
fn resolve_takes_the_first_address_found() {
    let first = SocketAddr::new(IpAddr::v4(93, 184, 216, 34), 80);
    let second = SocketAddr::new(IpAddr::V6(7), 80);
    let mut asked = String::new();
    let r = UnifyAddr::resolve("example.org:80", |name| {
        asked.push_str(name);
        Some(vec![first, second])
    });
    assert_eq!(asked, "example.org:80");
    assert_eq!(r, Ok(UnifyAddr::Socket(first)));
}

#[test]
fn resolve_fails_where_the_lookup_does() {
    let r = UnifyAddr::resolve("invalid_address_that_does_not_exist", |_| None);
    assert_eq!(r, Err(AddrError::Unresolved));
    let e = UnifyAddr::resolve("invalid_address_that_does_not_exist", |_| Some(vec![]));
    assert_eq!(e, Err(AddrError::Unresolved));
    assert_eq!(UnifyAddr::first_resolved(None), Err(AddrError::Unresolved));
    assert_eq!(UnifyAddr::first_resolved(Some(vec![])), Err(AddrError::Unresolved));
    let a = SocketAddr::new(IpAddr::v4(1, 1, 1, 1), 53);
    assert_eq!(UnifyAddr::first_resolved(Some(vec![a])), Ok(UnifyAddr::Socket(a)));
}

#[test]
fn an_endpoint_equals_its_text_and_its_bare_ip() {
    let a: UnifyAddr = SocketAddr::new(IpAddr::v4(127, 0, 0, 1), 8080).into();
    assert!(a.eq_str("127.0.0.1:8080"));
    assert!(!a.eq_str("127.0.0.1:8081"));
    assert!(!a.eq_str("127.0.0.2:8080"));
    assert!(a.eq_str("127.0.0.1"));
    assert!(!a.eq_str("127.0.0.2"));
    assert!(!a.eq_str("localhost"));
    assert!(!a.eq_str("/127.0.0.1:8080"));
    let b: UnifyAddr = SocketAddr::V6 { ip: 1, port: 80, scope_id: 0 }.into();
    assert!(b.eq_str("[::1]:80"));
    assert!(b.eq_str("[0:0:0:0:0:0:0:1]:80"));
    assert!(b.eq_str("::1"));
    assert!(!b.eq_str("::2"));
    assert!(!b.eq_str("[::1]"));
    assert!(!b.eq_str("0.0.0.1"));
}

#[test]
fn a_path_equals_the_text_that_spells_it() {
    let p: UnifyAddr = String::from("/tmp/test.sock").into();
    assert!(p.eq_str("/tmp/test.sock"));
    assert!(!p.eq_str("/tmp/test.soc"));
    assert!(!p.eq_str("127.0.0.1:80"));
}

#[test]
fn the_family_chooses_the_transport() {
    let a: UnifyAddr = SocketAddr::new(IpAddr::v4(127, 0, 0, 1), 1).into();
    let p: UnifyAddr = String::from("/run/x").into();
    assert_eq!(a.transport(), Transport::Tcp);
    assert_eq!(p.transport(), Transport::Unix);
}
