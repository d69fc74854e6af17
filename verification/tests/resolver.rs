use netdd::endpoint::{resolve, Endpoint, HostAddr};

fn expect_v4(spec: &[u8], quad: (u8, u8, u8, u8), port: u16) {
    match resolve(spec) {
        Ok(Endpoint::NetworkAddress(sa)) => {
            assert_eq!(sa.port, port);
            match sa.host {
                HostAddr::V4(a, b, c, d) => assert_eq!((a, b, c, d), quad),
                other => panic!("expected an IPv4 host, got {:?}", other),
            }
        }
        other => panic!("expected a network endpoint, got {:?}", other),
    }
}

fn expect_v6(spec: &[u8], groups: [u16; 8], scope: u32, port: u16) {
    match resolve(spec) {
        Ok(Endpoint::NetworkAddress(sa)) => {
            assert_eq!(sa.port, port);
            match sa.host {
                HostAddr::V6 { segs, scope: sc } => {
                    assert_eq!(segs, groups.to_vec());
                    assert_eq!(sc, scope);
                }
                other => panic!("expected an IPv6 host, got {:?}", other),
            }
        }
        other => panic!("expected a network endpoint, got {:?}", other),
    }
}

fn expect_file(spec: &[u8]) {
    match resolve(spec) {
        Ok(Endpoint::FilePath(p)) => assert_eq!(p, spec.to_vec()),
        other => panic!("expected a file endpoint, got {:?}", other),
    }
}

fn expect_err(spec: &[u8]) {
    assert!(resolve(spec).is_err(), "expected a parse error for {:?}", spec);
}

#[test]
fn resolves_ipv4_with_port() {
    expect_v4(b"netdd://1.2.3.4:80", (1, 2, 3, 4), 80);
    expect_v4(b"netdd://114.51.48.10:4545", (114, 51, 48, 10), 4545);
    expect_v4(b"netdd://0.0.0.0:4545", (0, 0, 0, 0), 4545);
    expect_v4(b"netdd://255.255.255.255:65535", (255, 255, 255, 255), 65535);
}

#[test]
fn resolves_port_with_leading_zeros() {
    expect_v4(b"netdd://1.2.3.4:0080", (1, 2, 3, 4), 80);
}

#[test]
fn resolves_plain_paths_unmodified() {
    expect_file(b"/tmp/a.bin");
    expect_file(b"relative/path");
    expect_file(b"");
    expect_file(b"foo:bar");
    expect_file(b"1.2.3.4:80");
    expect_file(b"netdd:/not-the-prefix");
    expect_file(b"NETDD://1.2.3.4:80");
}

#[test]
fn rejects_malformed_network_addresses() {
    expect_err(b"netdd://not-an-address");
    expect_err(b"netdd://");
    expect_err(b"netdd://1.2.3.4");
    expect_err(b"netdd://1.2.3:80");
    expect_err(b"netdd://1.2.3.4.5:80");
    expect_err(b"netdd://256.1.1.1:80");
    expect_err(b"netdd://01.2.3.4:80");
    expect_err(b"netdd://1.2.3.4:");
    expect_err(b"netdd://1.2.3.4:65536");
    expect_err(b"netdd://1.2.3.4:80x");
    expect_err(b"netdd:// 1.2.3.4:80");
}

#[test]
fn resolves_ipv6_loopback() {
    expect_v6(b"netdd://[::1]:8080", [0, 0, 0, 0, 0, 0, 0, 1], 0, 8080);
}

#[test]
fn resolves_ipv6_forms() {
    expect_v6(
        b"netdd://[2001:db8::1]:443",
        [0x2001, 0xdb8, 0, 0, 0, 0, 0, 1],
        0,
        443,
    );
    expect_v6(b"netdd://[::]:1", [0, 0, 0, 0, 0, 0, 0, 0], 0, 1);
    expect_v6(
        b"netdd://[1:2:3:4:5:6:7:8]:1",
        [1, 2, 3, 4, 5, 6, 7, 8],
        0,
        1,
    );
    expect_v6(
        b"netdd://[1:2:3:4:5:6:7::]:1",
        [1, 2, 3, 4, 5, 6, 7, 0],
        0,
        1,
    );
    expect_v6(
        b"netdd://[ABCD:ef01::2]:9",
        [0xabcd, 0xef01, 0, 0, 0, 0, 0, 2],
        0,
        9,
    );
}

#[test]
fn resolves_ipv6_with_scope() {
    expect_v6(b"netdd://[fe80::1%3]:80", [0xfe80, 0, 0, 0, 0, 0, 0, 1], 3, 80);
}

#[test]
fn resolves_ipv6_with_embedded_ipv4() {
    expect_v6(
        b"netdd://[::ffff:192.168.0.1]:80",
        [0, 0, 0, 0, 0, 0xffff, 0xc0a8, 0x0001],
        0,
        80,
    );
}

#[test]
fn rejects_malformed_ipv6() {
    expect_err(b"netdd://[1::2::3]:80");
    expect_err(b"netdd://[:::1]:80");
    expect_err(b"netdd://[1:2:3]:80");
    expect_err(b"netdd://[1:2:3:4:5:6:7:8:9]:80");
    expect_err(b"netdd://[1:2:3:4:5:6:7:8::]:80");
    expect_err(b"netdd://[12345::]:80");
    expect_err(b"netdd://[::1]:80808080");
    expect_err(b"netdd://[::1]80");
    expect_err(b"netdd://[::1]:");
    expect_err(b"netdd://[::1%]:80");
    expect_err(b"netdd://[1.2.3.4]:80");
    expect_err(b"netdd://[::1");
}
