use ipwatch::addr::{parse, IpAddr, Ipv4Addr, Ipv6Addr};

fn v4(a: u8, b: u8, c: u8, d: u8) -> IpAddr {
    IpAddr::V4(Ipv4Addr { a, b, c, d })
}

fn v6(g: [u16; 8]) -> IpAddr {
    IpAddr::V6(Ipv6Addr {
        s0: g[0],
        s1: g[1],
        s2: g[2],
        s3: g[3],
        s4: g[4],
        s5: g[5],
        s6: g[6],
        s7: g[7],
    })
}

#[test]
fn ipv4_texts_are_read() {
    assert_eq!(parse("203.0.113.7"), Some(v4(203, 0, 113, 7)));
    assert_eq!(parse("0.0.0.0"), Some(v4(0, 0, 0, 0)));
    assert_eq!(parse("255.255.255.255"), Some(v4(255, 255, 255, 255)));
}

#[test]
fn other_ipv4_texts_are_refused() {
    for text in [
        "", "1", "1.2.3", "1.2.3.4.5", "256.1.1.1", "1.1.1.256", "01.1.1.1", "1.1.1.00", "1..1.1",
        "1.1.1.1 ", " 1.1.1.1", "+1.1.1.1", "-1.1.1.1", "a.b.c.d", "1.1.1.1:80", "0x1.1.1.1",
    ] {
        assert_eq!(parse(text), None, "{text:?}");
    }
}

#[test]
fn ipv6_texts_are_read() {
    assert_eq!(parse("::"), Some(v6([0; 8])));
    assert_eq!(parse("::1"), Some(v6([0, 0, 0, 0, 0, 0, 0, 1])));
    assert_eq!(parse("1::"), Some(v6([1, 0, 0, 0, 0, 0, 0, 0])));
    assert_eq!(
        parse("2001:4860:4860::8888"),
        Some(v6([0x2001, 0x4860, 0x4860, 0, 0, 0, 0, 0x8888]))
    );
    assert_eq!(
        parse("2001:DB8:0:0:8:800:200C:417A"),
        Some(v6([0x2001, 0xdb8, 0, 0, 8, 0x800, 0x200c, 0x417a]))
    );
    assert_eq!(
        parse("1:2:3:4:5:6:7::"),
        Some(v6([1, 2, 3, 4, 5, 6, 7, 0]))
    );
    assert_eq!(
        parse("::ffff:192.0.2.33"),
        Some(v6([0, 0, 0, 0, 0, 0xffff, 0xc000, 0x221]))
    );
    assert_eq!(
        parse("1:2:3:4:5:6:1.2.3.4"),
        Some(v6([1, 2, 3, 4, 5, 6, 0x102, 0x304]))
    );
}

#[test]
fn other_ipv6_texts_are_refused() {
    for text in [
        ":", ":::", "1:2:3:4:5:6:7", "1:2:3:4:5:6:7:8:9", "1::2::3", "12345::", "g::", "1:2:3:4:5:6:7:8::",
        "::1:2:3:4:5:6:7:8", "1.2.3.4::", "1.2.3.4:5::", "::1.2.3", "::1.2.3.4:5", "1:2:3:4:5:6:7:1.2.3.4",
        "::1%eth0", "[::1]", ":1", "1:",
    ] {
        assert_eq!(parse(text), None, "{text:?}");
    }
}

#[test]
fn addresses_have_one_canonical_text() {
    for (text, canonical) in [
        ("203.0.113.7", "203.0.113.7"),
        ("0:0:0:0:0:0:0:0", "::"),
        ("0:0:0:0:0:0:0:1", "::1"),
        ("1:0:0:0:0:0:0:0", "1::"),
        ("2001:DB8:0000:0:1:0:0:1", "2001:db8::1:0:0:1"),
        ("2001:db8:0:1:1:1:1:1", "2001:db8:0:1:1:1:1:1"),
        ("1:0:0:2:0:0:0:3", "1:0:0:2::3"),
        ("::ffff:c000:221", "::ffff:192.0.2.33"),
        ("::1.2.3.4", "::102:304"),
        ("ABCD:EF01:2345:6789:ABCD:EF01:2345:6789", "abcd:ef01:2345:6789:abcd:ef01:2345:6789"),
    ] {
        let ip = parse(text).unwrap();
        assert_eq!(ip.to_text(), canonical);
        assert_eq!(parse(canonical), Some(ip));
        assert!(canonical.len() <= 39);
    }
}

#[test]
fn loopback_is_told_apart() {
    for text in ["127.0.0.1", "127.255.0.9", "::1"] {
        assert!(parse(text).unwrap().is_loopback(), "{text}");
    }
    for text in ["128.0.0.1", "10.0.0.1", "::", "::2", "::ffff:127.0.0.1"] {
        assert!(!parse(text).unwrap().is_loopback(), "{text}");
    }
}
