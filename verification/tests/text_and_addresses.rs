use server_common::address::{parse_ip_addr, IpAddr, SocketAddr, IPV4_LOCALHOST};
use server_common::listen::{console_addr, listen_tcp, parse_bind_address, Listen};
use server_common::text::{has_char, replace, split, stands_before, trim, white_space};

const IPV6_LOCALHOST: IpAddr = IpAddr::V6(1);

fn bind(value: &str) -> Option<IpAddr> {
    match parse_bind_address(value) {
        Ok(address) => address,
        Err(error) => panic!("{}", error.message()),
    }
}

fn v4(a: u32, b: u32, c: u32, d: u32) -> IpAddr {
    IpAddr::V4(((a * 256 + b) * 256 + c) * 256 + d)
}

#[test]
fn parses_bind_address() {
    assert_eq!(bind(""), None);
    assert_eq!(bind("127.0.0.1"), Some(IpAddr::V4(IPV4_LOCALHOST)));
    assert_eq!(bind("::1"), Some(IPV6_LOCALHOST));
    assert!(parse_bind_address("not-an-ip").is_err());
}

#[test]
fn bind_address_is_trimmed() {
    assert_eq!(bind(" \t\n"), None);
    assert_eq!(bind("\u{3000} 10.0.0.7\r\n"), Some(v4(10, 0, 0, 7)));
}

#[test]
fn wrong_bind_address_is_told() {
    match parse_bind_address("  host.example ") {
        Err(error) => {
            assert_eq!(error.address, "host.example");
            assert_eq!(error.message(), "Invalid bind address: host.example");
            assert_eq!(error.cause(), "invalid IP address syntax");
        }
        Ok(_) => panic!("not an address"),
    }
}

#[test]
fn tcp_listener_uses_bind_address() {
    let bind_addr = IpAddr::V4(IPV4_LOCALHOST);
    assert_eq!(
        listen_tcp(Some(bind_addr), 0),
        Listen::At(SocketAddr { ip: bind_addr, port: 0 })
    );
    assert_eq!(listen_tcp(None, 21115), Listen::Anywhere(21115));
}

#[test]
fn console_addr_only_when_bind_does_not_cover_ipv4_localhost() {
    for bind_addr in [
        None,
        Some(v4(0, 0, 0, 0)),
        Some(IpAddr::V6(0)),
        Some(v4(127, 0, 0, 1)),
    ] {
        assert_eq!(console_addr(bind_addr, 21117), None);
    }
    for bind_addr in [
        Some(v4(192, 0, 2, 1)),
        Some(parse_ip_addr("2001:db8::1").unwrap()),
        Some(IPV6_LOCALHOST),
    ] {
        assert_eq!(
            console_addr(bind_addr, 21117),
            Some(SocketAddr { ip: v4(127, 0, 0, 1), port: 21117 })
        );
    }
}

#[test]
fn console_listener_binds_ipv4_localhost() {
    assert_eq!(
        console_addr(Some(v4(192, 0, 2, 1)), 0).unwrap().ip,
        v4(127, 0, 0, 1)
    );
    assert!(console_addr(None, 0).is_none());
    assert!(console_addr(Some(v4(127, 0, 0, 1)), 0).is_none());
}

#[test]
fn either_listener_reaches_the_console() {
    // Of the server's listener and the console's, exactly one is at 127.0.0.1.
    assert_eq!(listen_tcp(Some(v4(127, 0, 0, 2)), 9), Listen::At(SocketAddr { ip: v4(127, 0, 0, 2), port: 9 }));
    assert_eq!(console_addr(Some(v4(127, 0, 0, 2)), 9), Some(SocketAddr { ip: v4(127, 0, 0, 1), port: 9 }));
}

#[test]
fn ipv4_addresses() {
    assert_eq!(parse_ip_addr("0.0.0.0"), Some(IpAddr::V4(0)));
    assert_eq!(parse_ip_addr("255.255.255.255"), Some(IpAddr::V4(0xffff_ffff)));
    assert_eq!(parse_ip_addr("192.0.2.1"), Some(IpAddr::V4(0xc000_0201)));
    for wrong in [
        "", "1", "1.2.3", "1.2.3.4.5", "1.2.3.4.", ".1.2.3.4", "1..2.3", "256.1.1.1", "01.2.3.4",
        "1.2.3.00", "1.2.3.0004", "1.2.3.4 ", "+1.2.3.4", "a.b.c.d", "0x1.2.3.4", "1.2.3.-4",
    ] {
        assert_eq!(parse_ip_addr(wrong), None, "{}", wrong);
    }
}

#[test]
fn ipv6_addresses() {
    assert_eq!(parse_ip_addr("::"), Some(IpAddr::V6(0)));
    assert_eq!(
        parse_ip_addr("2001:db8::1"),
        Some(IpAddr::V6(0x2001_0db8_0000_0000_0000_0000_0000_0001))
    );
    assert_eq!(
        parse_ip_addr("1:2:3:4:5:6:7:8"),
        Some(IpAddr::V6(0x0001_0002_0003_0004_0005_0006_0007_0008))
    );
    assert_eq!(
        parse_ip_addr("FfFf:0:00:000:0000:AbCd:e:f"),
        Some(IpAddr::V6(0xffff_0000_0000_0000_0000_abcd_000e_000f))
    );
    assert_eq!(
        parse_ip_addr("::ffff:127.0.0.1"),
        Some(IpAddr::V6(0xffff_7f00_0001))
    );
    assert_eq!(
        parse_ip_addr("1:2:3:4:5:6:1.2.3.4"),
        Some(IpAddr::V6(0x0001_0002_0003_0004_0005_0006_0102_0304))
    );
    assert_eq!(parse_ip_addr("1::"), Some(IpAddr::V6(1 << 112)));
    assert_eq!(
        parse_ip_addr("1:2:3:4:5:6:7::"),
        Some(IpAddr::V6(0x0001_0002_0003_0004_0005_0006_0007_0000))
    );
    for wrong in [
        ":", ":::", "1:", ":1", "1::2::3", "1:2:3:4:5:6:7", "1:2:3:4:5:6:7:8:9", "12345::", "g::",
        "1:2:3:4:5:6:7:8::", "::1:2:3:4:5:6:7:8", "1.2.3.4::", "1:1.2.3.4::", "::1.2.3",
        "::1.2.3.4:5", "1:2:3:4:5:6:7:1.2.3.4", "::%eth0", "[::1]", " ::1", "::1 ", "::00000",
        "1:2:3:4:5:6:7:8:", "::1:2:3:4:5:6:1.2.3.4",
    ] {
        assert_eq!(parse_ip_addr(wrong), None, "{}", wrong);
    }
}

#[test]
fn white_space_is_that_of_std() {
    for n in 0..=0x10ffffu32 {
        if let Some(c) = char::from_u32(n) {
            assert_eq!(white_space(c), c.is_whitespace(), "{:x}", n);
        }
    }
}

#[test]
fn text_operations_are_those_of_std() {
    for text in ["", " ", "a", " a ", "\u{a0}a b\u{85}", "a\u{200b}", "\t,a,,b,", ",", "-_-", "x/y/"] {
        assert_eq!(trim(text), text.trim());
        for c in [',', '/', '_', ' '] {
            assert_eq!(has_char(text, c), text.contains(c));
            let pieces: Vec<String> = text.split(c).map(|piece| piece.to_string()).collect();
            assert_eq!(split(text, c), pieces);
            assert_eq!(replace(text, c, '\u{e9}'), text.replace(c, "\u{e9}"));
        }
        for other in ["", "a", "b", "ab", "\u{e9}", "\u{ffff}", "\u{10000}", "A"] {
            assert_eq!(stands_before(text, other), text < other);
        }
    }
    assert_eq!(stands_before("\u{ffff}", "\u{10000}"), "\u{ffff}" < "\u{10000}");
}

#[test]
fn written_addresses_are_read() {
    for n in [0u32, 1, 0x7f00_0001, 0xc000_0201, 0xffff_ffff] {
        let bytes = n.to_be_bytes();
        let text = format!(" {}.{}.{}.{}\t", bytes[0], bytes[1], bytes[2], bytes[3]);
        assert_eq!(bind(&text), Some(IpAddr::V4(n)));
    }
    for n in [0u128, 1, 1 << 112, 0xffff_0102_0304, u128::MAX] {
        let bytes = n.to_be_bytes();
        let groups: Vec<u32> =
            bytes.chunks(2).map(|pair| pair[0] as u32 * 256 + pair[1] as u32).collect();
        let words: Vec<String> = groups.iter().map(|group| format!("{:x}", group)).collect();
        assert_eq!(parse_ip_addr(&words.join(":")), Some(IpAddr::V6(n)));
        for from in 0..8 {
            for to in from + 1..=8 {
                if groups[from..to].iter().all(|group| *group == 0) {
                    let text = format!("{}::{}", words[..from].join(":"), words[to..].join(":"));
                    assert_eq!(bind(&format!("\n{} ", text)), Some(IpAddr::V6(n)), "{}", text);
                }
            }
        }
    }
    assert_eq!(parse_ip_addr("::ffff:1.2.3.4"), Some(IpAddr::V6(0xffff_0102_0304)));
}
