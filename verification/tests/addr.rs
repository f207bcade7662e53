use dns_core::addr::{Ipv4Addr, Ipv6Addr};

#[test]
fn an_ipv4_address_as_text() {
    assert_eq!(Ipv4Addr::new(93, 184, 216, 34).to_text(), "93.184.216.34");
    assert_eq!(Ipv4Addr::new(0, 0, 0, 0).to_text(), "0.0.0.0");
    assert_eq!(Ipv4Addr::new(255, 100, 10, 9).to_text(), "255.100.10.9");
    assert_eq!(Ipv4Addr::new(1, 20, 200, 101).octets(), [1, 20, 200, 101]);
    for n in 0..=255u8 {
        assert_eq!(Ipv4Addr::new(n, 0, 0, n).to_text(), format!("{}.0.0.{}", n, n));
    }
}

#[test]
fn an_ipv4_address_is_four_numbers_with_dots() {
    assert_eq!(Ipv4Addr::parse("93.184.216.34"), Some(Ipv4Addr::new(93, 184, 216, 34)));
    assert_eq!(Ipv4Addr::parse("0.0.0.0"), Some(Ipv4Addr::new(0, 0, 0, 0)));
    assert_eq!(Ipv4Addr::parse("255.255.255.255"), Some(Ipv4Addr::new(255, 255, 255, 255)));
    let refused = [
        "", "1", "1.2.3", "1.2.3.4.5", "1.2.3.4.", ".1.2.3.4", "1..2.3", "256.1.1.1", "1.2.3.256",
        "01.2.3.4", "1.2.3.04", "1.2.3.4 ", " 1.2.3.4", "1.2.3.a", "1.2.3.-4", "1.2.3.1000", "00.0.0.0",
        "1.2.3.+4", "::1",
    ];
    for text in refused {
        assert_eq!(Ipv4Addr::parse(text), None, "{:?}", text);
    }
    for a in [0u8, 1, 9, 10, 99, 100, 199, 200, 249, 250, 255] {
        for d in [0u8, 7, 64, 128, 255] {
            let addr = Ipv4Addr::new(a, d, a, d);
            assert_eq!(Ipv4Addr::parse(&addr.to_text()), Some(addr));
        }
    }
}

#[test]
fn an_ipv4_octet_has_no_zero_before_a_digit() {
    let texts = [
        ("1.2.3.4", Some([1, 2, 3, 4])),
        ("01.2.3.4", None),
        ("1.02.3.4", None),
        ("0.00.0.0", None),
        ("0.0.0.0", Some([0, 0, 0, 0])),
        ("10.0.0.255", Some([10, 0, 0, 255])),
        ("192.168.1.1", Some([192, 168, 1, 1])),
        ("999.1.1.1", None),
        ("1.2.3.4\n", None),
        ("a.b.c.d", None),
    ];
    for (text, wanted) in texts {
        assert_eq!(Ipv4Addr::parse(text).map(|a| a.octets()), wanted, "{:?}", text);
    }
}

#[test]
fn an_ipv6_address_is_groups_with_colons() {
    assert_eq!(
        Ipv6Addr::parse("2606:2800:220:1:248:1893:25c8:1946"),
        Some(Ipv6Addr::new(0x2606, 0x2800, 0x220, 1, 0x248, 0x1893, 0x25c8, 0x1946))
    );
    assert_eq!(Ipv6Addr::parse("::"), Some(Ipv6Addr::new(0, 0, 0, 0, 0, 0, 0, 0)));
    assert_eq!(Ipv6Addr::parse("::1"), Some(Ipv6Addr::new(0, 0, 0, 0, 0, 0, 0, 1)));
    assert_eq!(Ipv6Addr::parse("1::"), Some(Ipv6Addr::new(1, 0, 0, 0, 0, 0, 0, 0)));
    assert_eq!(Ipv6Addr::parse("FE80::AbCd:1"), Some(Ipv6Addr::new(0xfe80, 0, 0, 0, 0, 0, 0xabcd, 1)));
    assert_eq!(Ipv6Addr::parse("1:2:3:4:5:6:7::"), Some(Ipv6Addr::new(1, 2, 3, 4, 5, 6, 7, 0)));
    assert_eq!(Ipv6Addr::parse("::2:3:4:5:6:7:8"), Some(Ipv6Addr::new(0, 2, 3, 4, 5, 6, 7, 8)));
    assert_eq!(Ipv6Addr::parse("1:2:3::6:7:8"), Some(Ipv6Addr::new(1, 2, 3, 0, 0, 6, 7, 8)));
    assert_eq!(
        Ipv6Addr::new(1, 2, 3, 4, 5, 6, 7, 8).segments(),
        [1, 2, 3, 4, 5, 6, 7, 8]
    );
    let refused = [
        "", ":", ":::", "1", "1:2:3:4:5:6:7", "1:2:3:4:5:6:7:8:9", "1::2::3", "12345::", "g::", "1:2:3:4:5:6:7:8:",
        ":1:2:3:4:5:6:7:8", "1:2:3:4:5:6:7:8::", "::1:2:3:4:5:6:7:8", "1.2.3.4", "::ffff:1.2.3.4", "1::2 ", " ::",
        "1:::2", "::1:", ":1::",
    ];
    for text in refused {
        assert_eq!(Ipv6Addr::parse(text), None, "{:?}", text);
    }
}

#[test]
fn a_group_has_one_to_four_digits() {
    let texts = [
        ("abcd:ef01:2345:6789:abcd:ef01:2345:6789", Some([0xabcd, 0xef01, 0x2345, 0x6789, 0xabcd, 0xef01, 0x2345, 0x6789])),
        ("0:0:0:0:0:0:0:0", Some([0; 8])),
        ("0001:02:003:4::", Some([1, 2, 3, 4, 0, 0, 0, 0])),
        ("1::8", Some([1, 0, 0, 0, 0, 0, 0, 8])),
        ("1:2::7:8", Some([1, 2, 0, 0, 0, 0, 7, 8])),
        ("00001::", None),
        ("::g", None),
        ("ffff0::", None),
    ];
    for (text, wanted) in texts {
        assert_eq!(Ipv6Addr::parse(text).map(|a| a.segments()), wanted, "{:?}", text);
    }
}
