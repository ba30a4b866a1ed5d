use pfsense_dashboard::net::{
    parse_ip, parse_ipv4, parse_ipv6, parse_port, IpAddr, Ipv4Addr, Ipv6Addr,
};

fn chars(text: &str) -> Vec<char> {
    text.chars().collect()
}

fn v6(groups: [u16; 8]) -> Option<Ipv6Addr> {
    Some(Ipv6Addr::new(groups))
}

#[test]
fn ipv4_address_from_octets() {
    assert_eq!(Ipv4Addr::new(192, 0, 2, 1).bits, 0xC000_0201);
    assert_eq!(Ipv4Addr::new(0, 0, 0, 0).bits, 0);
    assert_eq!(Ipv4Addr::new(255, 255, 255, 255).bits, u32::MAX);
    assert_eq!(Ipv4Addr::new(1, 2, 3, 4).octets(), [1, 2, 3, 4]);
    assert_eq!(Ipv4Addr { bits: 0x7f00_0001 }.octets(), [127, 0, 0, 1]);
}

#[test]
fn ipv6_address_from_groups() {
    assert_eq!(Ipv6Addr::new([0, 0, 0, 0, 0, 0, 0, 1]).bits, 1);
    assert_eq!(
        Ipv6Addr::new([0x2001, 0xdb8, 0, 0, 0, 0, 0xabcd, 0x12]).bits,
        0x2001_0db8_0000_0000_0000_0000_abcd_0012
    );
    assert_eq!(Ipv6Addr::new([0xffff; 8]).bits, u128::MAX);
}

#[test]
fn ipv4_literals() {
    assert_eq!(parse_ipv4(&chars("192.0.2.1")), Some(Ipv4Addr::new(192, 0, 2, 1)));
    assert_eq!(parse_ipv4(&chars("0.0.0.0")), Some(Ipv4Addr::new(0, 0, 0, 0)));
    assert_eq!(parse_ipv4(&chars("255.255.255.255")), Some(Ipv4Addr::new(255, 255, 255, 255)));
    for bad in [
        "", ".", "1", "1.2.3", "1.2.3.4.5", "1.2.3.", ".1.2.3", "1..2.3", "256.0.0.1", "1.2.3.256",
        "01.2.3.4", "1.2.3.04", "00.0.0.0", "1.2.3.4 ", " 1.2.3.4", "1.2.3.a", "1.2.3.-4",
        "+1.2.3.4", "1.2.3.+4", "1000.1.1.1", "1.2.3.4/24", "::1", "0x1.2.3.4", "１.2.3.4",
    ] {
        assert_eq!(parse_ipv4(&chars(bad)), None, "{:?}", bad);
    }
}

#[test]
fn ipv6_literals() {
    assert_eq!(parse_ipv6(&chars("::")), v6([0; 8]));
    assert_eq!(parse_ipv6(&chars("::1")), v6([0, 0, 0, 0, 0, 0, 0, 1]));
    assert_eq!(parse_ipv6(&chars("1::")), v6([1, 0, 0, 0, 0, 0, 0, 0]));
    assert_eq!(parse_ipv6(&chars("1:2:3:4:5:6:7:8")), v6([1, 2, 3, 4, 5, 6, 7, 8]));
    assert_eq!(parse_ipv6(&chars("1:2:3:4:5:6:7::")), v6([1, 2, 3, 4, 5, 6, 7, 0]));
    assert_eq!(parse_ipv6(&chars("::2:3:4:5:6:7:8")), v6([0, 2, 3, 4, 5, 6, 7, 8]));
    assert_eq!(parse_ipv6(&chars("1::8")), v6([1, 0, 0, 0, 0, 0, 0, 8]));
    assert_eq!(parse_ipv6(&chars("2001:DB8::aBcD:0012")), v6([0x2001, 0xdb8, 0, 0, 0, 0, 0xabcd, 0x12]));
    assert_eq!(parse_ipv6(&chars("0000:0000:0000:0000:0000:0000:0000:0001")), v6([0, 0, 0, 0, 0, 0, 0, 1]));
    assert_eq!(parse_ipv6(&chars("::ffff:192.0.2.1")), v6([0, 0, 0, 0, 0, 0xffff, 0xc000, 0x0201]));
    assert_eq!(parse_ipv6(&chars("::192.0.2.1")), v6([0, 0, 0, 0, 0, 0, 0xc000, 0x0201]));
    assert_eq!(parse_ipv6(&chars("1:2:3:4:5:6:1.2.3.4")), v6([1, 2, 3, 4, 5, 6, 0x0102, 0x0304]));
    assert_eq!(parse_ipv6(&chars("1:2:3:4:5::1.2.3.4")), v6([1, 2, 3, 4, 5, 0, 0x0102, 0x0304]));
    for bad in [
        "", ":", ":::", "1", "1:2:3:4:5:6:7", "1:2:3:4:5:6:7:8:9", "1:2:3:4:5:6:7:8::",
        "::1:2:3:4:5:6:7:8", "1::2:3:4:5:6:7:8", "1::2::3", "1:::2", ":1", "1:", ":1:2:3:4:5:6:7:8",
        "1:2:3:4:5:6:7:8:", "12345::", "::12345", "g::", "::g", "1.2.3.4", "1.2.3.4::", "1.2.3.4::1",
        "::1.2.3.4:5", "1:2:3:4:5:6:7:1.2.3.4", "1:2:3:4:5:6::1.2.3.4", "::1.2.3", "::1.2.3.256",
        "::01.2.3.4", "fe80::1%em0", " ::1", "::1 ", "::-1", "::+1", "1:2:3:4:5:1.2.3.4",
    ] {
        assert_eq!(parse_ipv6(&chars(bad)), None, "{:?}", bad);
    }
}

#[test]
fn literals_of_either_family() {
    assert_eq!(parse_ip(&chars("10.0.0.1")), Some(IpAddr::V4(Ipv4Addr::new(10, 0, 0, 1))));
    assert_eq!(
        parse_ip(&chars("fe80::1")),
        Some(IpAddr::V6(Ipv6Addr::new([0xfe80, 0, 0, 0, 0, 0, 0, 1])))
    );
    assert_eq!(parse_ip(&chars("10.0.0")), None);
    assert_eq!(parse_ip(&chars("example")), None);
}

#[test]
fn ports_agree_with_the_standard_library() {
    assert_eq!(parse_port(&chars("80")), Some(80));
    assert_eq!(parse_port(&chars("65535")), Some(65535));
    assert_eq!(parse_port(&chars("65536")), None);
    for sample in [
        "", "0", "00", "007", "+", "+0", "+80", "-80", "80 ", " 80", "8 0", "65535", "65536", "99999",
        "18446744073709551616", "0x50", "８０", "80\n", "++80", "1e3",
    ] {
        assert_eq!(parse_port(&chars(sample)), sample.parse::<u16>().ok(), "{:?}", sample);
    }
}
