use workload_cache::ip::{parses_as_ip, parses_as_ipv4, parses_as_ipv6};

#[test]
fn dotted_quads() {
    for text in ["0.0.0.0", "10.0.0.5", "192.168.1.7", "255.255.255.255", "1.2.3.4", "127.0.0.1"] {
        assert!(parses_as_ipv4(text), "{}", text);
        assert!(parses_as_ip(text), "{}", text);
        assert!(!parses_as_ipv6(text), "{}", text);
    }
}

#[test]
fn texts_that_are_no_dotted_quad() {
    for text in [
        "", ".", "1", "1.2.3", "1.2.3.4.5", "1.2.3.", ".1.2.3", "1..3.4", "256.0.0.1", "1.2.3.256",
        "01.2.3.4", "1.2.3.04", "00.0.0.0", "1.2.3.4 ", " 1.2.3.4", "1.2.3.a", "1.2.3.-4",
        "1.2.3.1000", "0x1.2.3.4", "1.2.3.4/24", "None", "1,2,3,4", "999.1.1.1", "1.2.3.300",
    ] {
        assert!(!parses_as_ipv4(text), "{}", text);
    }
}

#[test]
fn colon_separated_literals() {
    for text in [
        "::", "::1", "1::", "fd00::1", "FD00::ABCD", "2001:db8::8a2e:370:7334",
        "2001:0db8:85a3:0000:0000:8a2e:0370:7334", "1:2:3:4:5:6:7:8", "1:2:3:4:5:6:7::",
        "::2:3:4:5:6:7:8", "1::3:4:5:6:7:8", "::ffff:192.168.1.7", "::1.2.3.4",
        "1:2:3:4:5:6:1.2.3.4", "64:ff9b::10.0.0.1", "1:2:3:4:5::1.2.3.4", "a:b:c:d:e:f:0:1",
        "ffff:ffff:ffff:ffff:ffff:ffff:255.255.255.255",
    ] {
        assert!(parses_as_ipv6(text), "{}", text);
        assert!(parses_as_ip(text), "{}", text);
        assert!(!parses_as_ipv4(text), "{}", text);
    }
}

#[test]
fn texts_that_are_no_colon_separated_literal() {
    for text in [
        "", ":", ":::", "1", "1:", ":1", "1:2", "1:2:3:4:5:6:7", "1:2:3:4:5:6:7:8:9", "1::2::3",
        "1:::2", "::1:", ":1::", "12345::", "::12345", "g::1", "1:2:3:4:5:6:7:8::",
        "::1:2:3:4:5:6:7:8", "1:2:3:4:5:6:7::8", "1:2:3:4:5:6::1.2.3.4", "1:2:3:4:5:6:7:1.2.3.4",
        "1.2.3.4::", "1.2.3.4::1", "1:1.2.3.4:3::", "::1.2.3", "::1.2.3.256", "::01.2.3.4",
        "fe80::1%eth0", "[::1]", "::1 ", " ::1", "1:2:3:4:5:1.2.3.4", "None", "::ffff:1.2.3.4.5",
        "2001:0db8:85a3:0000:0000:8a2e:0370:7334:0000:0000:0000:0000",
    ] {
        assert!(!parses_as_ipv6(text), "{}", text);
    }
}

#[test]
fn neither_family() {
    for text in ["", "None", "not-an-ip", "localhost", "10.0.0", "10.0.0.1:80", "dead:beef"] {
        assert!(!parses_as_ip(text), "{}", text);
    }
}
