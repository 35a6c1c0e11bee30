use rayfish::addr::{IpAddr, Ipv4Addr, Ipv6Addr};

fn v6(text: &str) -> String {
    Ipv6Addr::parse(text).unwrap().to_text()
}

#[test]
fn ipv4_texts_are_read_and_written() {
    let ip = Ipv4Addr::parse("192.168.1.1").unwrap();
    assert_eq!(ip, Ipv4Addr { a: 192, b: 168, c: 1, d: 1 });
    assert_eq!(ip.to_text(), "192.168.1.1");
    assert_eq!(Ipv4Addr::parse("0.0.0.0").unwrap().to_text(), "0.0.0.0");
}

#[test]
fn malformed_ipv4_texts_are_refused() {
    for text in [
        "", "1.2.3", "1.2.3.4.5", "256.1.1.1", "01.2.3.4", "1.2.3.", "1..2.3", " 1.2.3.4",
        "1.2.3.4 ", "a.b.c.d", "1.2.3.-4", "1.2.3.+4", "0001.2.3.4",
    ] {
        assert_eq!(Ipv4Addr::parse(text), None, "{text:?}");
    }
}

#[test]
fn ipv6_texts_are_shortened() {
    assert_eq!(v6("200::53"), "200::53");
    assert_eq!(v6("0200:0:0:0:0:0:0:0053"), "200::53");
    assert_eq!(v6("::"), "::");
    assert_eq!(v6("::1"), "::1");
    assert_eq!(v6("1::"), "1::");
    assert_eq!(v6("1:0:0:2:0:0:0:3"), "1:0:0:2::3");
    assert_eq!(v6("1:0:2:3:4:5:6:7"), "1:0:2:3:4:5:6:7");
    assert_eq!(v6("2001:19F0:300:1704::6"), "2001:19f0:300:1704::6");
    assert_eq!(v6("::ffff:1.2.3.4"), "::ffff:1.2.3.4");
    assert_eq!(v6("::1.2.3.4"), "::102:304");
}

#[test]
fn ipv6_texts_name_their_segments() {
    for (text, segments) in [
        ("200::53", [0x200, 0, 0, 0, 0, 0, 0, 0x53]),
        ("fe80::1:0:0:1", [0xfe80, 0, 0, 0, 1, 0, 0, 1]),
        ("::ffff:10.0.0.1", [0, 0, 0, 0, 0, 0xffff, 0xa00, 1]),
        ("64:ff9b::192.0.2.33", [0x64, 0xff9b, 0, 0, 0, 0, 0xc000, 0x221]),
        ("1:2:3:4:5:6:7:8", [1, 2, 3, 4, 5, 6, 7, 8]),
        ("1::8", [1, 0, 0, 0, 0, 0, 0, 8]),
        ("0:0:1::", [0, 0, 1, 0, 0, 0, 0, 0]),
        ("1:2:3:4:5:6:1.2.3.4", [1, 2, 3, 4, 5, 6, 0x102, 0x304]),
    ] {
        let ip = Ipv6Addr::parse(text).unwrap();
        assert_eq!(ip.segments, segments, "{text}");
        assert_eq!(Ipv6Addr::parse(&ip.to_text()), Some(ip), "{text}");
    }
    assert_eq!(v6("fe80::1:0:0:1"), "fe80::1:0:0:1");
    assert_eq!(v6("0:0:1::"), "0:0:1::");
    assert_eq!(v6("64:ff9b::192.0.2.33"), "64:ff9b::c000:221");
}

#[test]
fn malformed_ipv6_texts_are_refused() {
    for text in [
        "", ":", ":::", "1::2::3", "1:2:3:4:5:6:7", "1:2:3:4:5:6:7:8:9", "12345::", "g::", "1:",
        ":1", "::1.2.3", "1.2.3.4::", "1:2:3:4:5:6:7:1.2.3.4", " ::1", "1:2:3:4:5:6:7::8",
    ] {
        assert!(Ipv6Addr::parse(text).is_none(), "{text:?}");
    }
}

#[test]
fn addresses_of_either_family_are_told_apart() {
    assert_eq!(
        IpAddr::parse("9.9.9.9"),
        Some(IpAddr::V4(Ipv4Addr { a: 9, b: 9, c: 9, d: 9 }))
    );
    assert!(matches!(IpAddr::parse("200::53"), Some(IpAddr::V6(_))));
    assert_eq!(IpAddr::parse("nowhere"), None);
    assert_eq!(IpAddr::parse("200::53").unwrap().to_text(), "200::53");
}
