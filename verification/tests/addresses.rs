use tapoctl::{IpAddr, Ipv4Addr, Ipv6Addr};

fn v4(text: &str) -> Option<String> {
    text.parse::<Ipv4Addr>().ok().map(|a| a.to_string())
}

fn v6(text: &str) -> Option<String> {
    text.parse::<Ipv6Addr>().ok().map(|a| a.to_string())
}

fn ip(text: &str) -> Option<String> {
    text.parse::<IpAddr>().ok().map(|a| a.to_string())
}

#[test]
fn reads_ipv4_addresses() {
    assert_eq!(
        "192.168.1.50".parse::<Ipv4Addr>().unwrap(),
        Ipv4Addr { bits: 0xc0a80132 }
    );
    assert_eq!("0.0.0.0".parse::<Ipv4Addr>().unwrap().bits, 0);
    assert_eq!("255.255.255.255".parse::<Ipv4Addr>().unwrap().bits, u32::MAX);
}

#[test]
fn refuses_what_is_no_ipv4_address() {
    for text in [
        "",
        "1",
        "1.2.3",
        "1.2.3.4.5",
        "1.2.3.256",
        "01.2.3.4",
        "1.2.3.00",
        "1.2.3.4 ",
        " 1.2.3.4",
        "1..2.3",
        "1.2.3.",
        ".1.2.3",
        "1.2.3.a",
        "+1.2.3.4",
        "1.2.3.0004",
        "1,2,3,4",
    ] {
        assert_eq!(v4(text), None, "{text:?}");
    }
}

#[test]
fn writes_ipv4_addresses() {
    assert_eq!(Ipv4Addr { bits: 0x0a2a050a }.to_string(), "10.42.5.10");
    assert_eq!(Ipv4Addr { bits: 0x7f000001 }.to_string(), "127.0.0.1");
}

#[test]
fn reads_ipv6_addresses() {
    assert_eq!("::".parse::<Ipv6Addr>().unwrap().bits, 0);
    assert_eq!("::1".parse::<Ipv6Addr>().unwrap().bits, 1);
    assert_eq!(
        "2001:db8::ff00:42:8329".parse::<Ipv6Addr>().unwrap().bits,
        0x20010db8000000000000ff0000428329
    );
    assert_eq!(
        "1:2:3:4:5:6:7:8".parse::<Ipv6Addr>().unwrap().bits,
        0x00010002000300040005000600070008
    );
    assert_eq!(
        "1:2:3:4:5:6:7::".parse::<Ipv6Addr>().unwrap().bits,
        0x00010002000300040005000600070000
    );
    assert_eq!(
        "::ffff:192.168.1.50".parse::<Ipv6Addr>().unwrap().bits,
        0xffffc0a80132
    );
    assert_eq!(
        "64:ff9b::1.2.3.4".parse::<Ipv6Addr>().unwrap().bits,
        0x0064ff9b000000000000000001020304
    );
    assert_eq!(
        "FE80::ABCD".parse::<Ipv6Addr>().unwrap().bits,
        0xfe80000000000000000000000000abcd
    );
}

#[test]
fn refuses_what_is_no_ipv6_address() {
    for text in [
        "",
        ":",
        ":::",
        "1",
        "1:2:3:4:5:6:7",
        "1:2:3:4:5:6:7:8:9",
        "1:2:3:4:5:6:7::8",
        "1::2::3",
        "12345::",
        "g::",
        "::1 ",
        "1:2:3:4:5:6:7:1.2.3.4",
        "1.2.3.4::",
        "::1.2.3",
        "::1.2.3.4:5",
        "fe80::1%eth0",
        "[::1]",
        ":1::",
        "1:",
    ] {
        assert_eq!(v6(text), None, "{text:?}");
    }
}

#[test]
fn writes_ipv6_addresses_in_their_shortest_form() {
    assert_eq!(v6("0:0:0:0:0:0:0:0").unwrap(), "::");
    assert_eq!(v6("0:0:0:0:0:0:0:1").unwrap(), "::1");
    assert_eq!(v6("1:0:0:0:0:0:0:0").unwrap(), "1::");
    assert_eq!(v6("2001:0DB8:0:0:0:FF00:0042:8329").unwrap(), "2001:db8::ff00:42:8329");
    assert_eq!(v6("1:0:0:2:0:0:0:3").unwrap(), "1:0:0:2::3");
    assert_eq!(v6("1:0:0:2:3:0:0:4").unwrap(), "1::2:3:0:0:4");
    assert_eq!(v6("1:0:2:3:4:5:6:7").unwrap(), "1:0:2:3:4:5:6:7");
    assert_eq!(v6("1:2:3:4:5:6:7:8").unwrap(), "1:2:3:4:5:6:7:8");
    assert_eq!(v6("::ffff:c0a8:132").unwrap(), "::ffff:192.168.1.50");
    assert_eq!(v6("::1.2.3.4").unwrap(), "::102:304");
}

#[test]
fn reads_and_writes_addresses_of_both_kinds() {
    assert_eq!(ip("192.168.1.50").unwrap(), "192.168.1.50");
    assert_eq!(ip("FE80::1").unwrap(), "fe80::1");
    assert_eq!(ip("desk"), None);
    assert!(matches!("1.2.3.4".parse::<IpAddr>(), Ok(IpAddr::V4(_))));
    assert!(matches!("::ffff:1.2.3.4".parse::<IpAddr>(), Ok(IpAddr::V6(_))));
}

#[test]
fn text_of_an_address_reads_back_as_the_address() {
    for bits in [0u128, 1, 0xffff, 0x10000, 0xffffc0a80132, u128::MAX, 1 << 127, 0xabc << 64] {
        let address = IpAddr::V6(Ipv6Addr { bits });
        assert_eq!(address.to_string().parse::<IpAddr>().unwrap(), address);
    }
    for bits in [0u32, 1, 0x01020304, 0xc0a80132, u32::MAX] {
        let address = IpAddr::V4(Ipv4Addr { bits });
        assert_eq!(address.to_string().parse::<IpAddr>().unwrap(), address);
    }
}
