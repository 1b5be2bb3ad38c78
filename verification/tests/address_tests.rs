use ws_gateway::address::Address;
use ws_gateway::error::MyError;
use ws_gateway::numeral::decimal_text;

#[test]
fn parses_dotted_quads() {
    assert_eq!(Address::parse("127.0.0.1"), Ok(Address::V4(0x7F00_0001)));
    assert_eq!(Address::parse("10.0.0.5"), Ok(Address::V4(0x0A00_0005)));
    assert_eq!(Address::parse("0.0.0.0"), Ok(Address::V4(0)));
    assert_eq!(Address::parse("255.255.255.255"), Ok(Address::V4(u32::MAX)));
    assert_eq!(Address::parse("8.8.8.8"), Ok(Address::from_octets(8, 8, 8, 8)));
}

#[test]
fn refuses_malformed_quads() {
    for text in [
        "", " ", "1", "1.2.3", "1.2.3.4.5", "256.1.1.1", "1.2.3.256", "01.2.3.4", "1.2.3.04",
        "1..2.3", ".1.2.3", "1.2.3.", "a.b.c.d", "1.2.3.4 ", " 1.2.3.4", "1,2,3,4", "1.2.3.-4",
        "1.2.3.+4", "1000.1.1.1", "0x1.2.3.4", "١.2.3.4",
    ] {
        assert_eq!(Address::parse(text), Err(MyError::MalformedAddress), "{:?}", text);
    }
}

#[test]
fn writes_dotted_quads() {
    assert_eq!(Address::V4(0x7F00_0001).to_text(), "127.0.0.1");
    assert_eq!(Address::V4(0).to_text(), "0.0.0.0");
    assert_eq!(Address::V4(u32::MAX).to_text(), "255.255.255.255");
    assert_eq!(Address::from_octets(192, 168, 1, 20).to_text(), "192.168.1.20");
}

#[test]
fn text_round_trip() {
    for bits in [0u32, 1, 255, 256, 0x0A00_0005, 0x7F00_0001, 0xC0A8_0114, u32::MAX] {
        let address = Address::V4(bits);
        assert_eq!(Address::parse(&address.to_text()), Ok(address));
    }
}

#[test]
fn loopback_is_recognized() {
    assert!(Address::loopback().is_loopback());
    assert!(Address::from_octets(127, 0, 0, 1).is_loopback());
    assert!(!Address::from_octets(127, 0, 0, 2).is_loopback());
    assert!(!Address::V6(0x7F00_0001).is_loopback());
    assert!(!Address::V6(1).is_loopback());
}

#[test]
fn decimal_text_exact_values() {
    assert_eq!(decimal_text(0), "0");
    assert_eq!(decimal_text(7), "7");
    assert_eq!(decimal_text(10), "10");
    assert_eq!(decimal_text(1234), "1234");
    assert_eq!(decimal_text(u64::MAX), "18446744073709551615");
}

#[test]
fn parses_colon_groups() {
    assert_eq!(Address::parse("::"), Ok(Address::V6(0)));
    assert_eq!(Address::parse("::1"), Ok(Address::V6(1)));
    assert_eq!(Address::parse("1::"), Ok(Address::V6(1 << 112)));
    assert_eq!(Address::parse("0:0:0:0:0:0:0:1"), Ok(Address::V6(1)));
    assert_eq!(
        Address::parse("1:2:3:4:5:6:7:8"),
        Ok(Address::V6(0x0001_0002_0003_0004_0005_0006_0007_0008))
    );
    assert_eq!(
        Address::parse("2001:db8::ff00:42:8329"),
        Ok(Address::V6(0x2001_0db8_0000_0000_0000_ff00_0042_8329))
    );
    assert_eq!(
        Address::parse("2001:0DB8:0000:0000:0000:FF00:0042:8329"),
        Ok(Address::V6(0x2001_0db8_0000_0000_0000_ff00_0042_8329))
    );
    assert_eq!(
        Address::parse("ffff:ffff:ffff:ffff:ffff:ffff:ffff:ffff"),
        Ok(Address::V6(u128::MAX))
    );
    assert_eq!(Address::parse("1:2:3:4:5:6:7::"), Ok(Address::V6(0x0001_0002_0003_0004_0005_0006_0007_0000)));
    assert_eq!(Address::parse("::2:3:4:5:6:7:8"), Ok(Address::V6(0x0000_0002_0003_0004_0005_0006_0007_0008)));
    assert_eq!(Address::parse("fe80::1"), Ok(Address::V6(0xfe80 << 112 | 1)));
}

#[test]
fn parses_colon_groups_that_close_with_a_quad() {
    assert_eq!(Address::parse("::ffff:10.0.0.5"), Ok(Address::V6(0xffff_0a00_0005)));
    assert_eq!(Address::parse("::127.0.0.1"), Ok(Address::V6(0x7f00_0001)));
    assert_eq!(
        Address::parse("1:2:3:4:5:6:1.2.3.4"),
        Ok(Address::V6(0x0001_0002_0003_0004_0005_0006_0102_0304))
    );
    assert_eq!(Address::parse("64:ff9b::192.0.2.33"), Ok(Address::V6(0x0064_ff9b << 96 | 0xc000_0221)));
    assert_eq!(Address::parse("1:2:3:4:5::1.2.3.4"), Ok(Address::V6(0x0001_0002_0003_0004_0005_0000_0102_0304)));
}

#[test]
fn refuses_malformed_colon_groups() {
    for text in [
        ":", ":::", "1", "1:", ":1", "1:2", "1:2:3:4:5:6:7", "1:2:3:4:5:6:7:8:9", "1:2:3:4:5:6:7:8:",
        ":1:2:3:4:5:6:7:8", "1:2:3:4:5:6:7:8::", "::1:2:3:4:5:6:7:8", "1::2::3", "1:::2", ":::1",
        "12345::", "::12345", "g::", "::g", "1:2:3:4:5:6:7:1.2.3.4", "1:2:3:4:5:6::1.2.3.4",
        "1.2.3.4::", "1.2.3.4:1:2:3:4:5:6", "::1.2.3", "::1.2.3.4.5", "::1.2.3.256", "::01.2.3.4",
        "::1.2.3.4:5", "1::2 ", " ::1", "::1%eth0", "[::1]", "::-1", "0x1::", "1:2:3:4:5:6:7:",
        "1:2:3:4:5:6:1.2.3.4:7",
    ] {
        assert_eq!(Address::parse(text), Err(MyError::MalformedAddress), "{:?}", text);
    }
}

#[test]
fn writes_colon_groups() {
    assert_eq!(Address::V6(0).to_text(), "0:0:0:0:0:0:0:0");
    assert_eq!(Address::V6(1).to_text(), "0:0:0:0:0:0:0:1");
    assert_eq!(
        Address::V6(0x2001_0db8_0000_0000_0000_ff00_0042_8329).to_text(),
        "2001:db8:0:0:0:ff00:42:8329"
    );
    assert_eq!(Address::V6(u128::MAX).to_text(), "ffff:ffff:ffff:ffff:ffff:ffff:ffff:ffff");
}

#[test]
fn colon_groups_round_trip() {
    for bits in [0u128, 1, 0xffff, 0x1_0000, 0x2001_0db8_0000_0000_0000_ff00_0042_8329, u128::MAX, 1 << 127] {
        let address = Address::V6(bits);
        assert_eq!(Address::parse(&address.to_text()), Ok(address));
    }
}
