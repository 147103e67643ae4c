use vauth::check_valid_ip;

#[test]
fn test_valid_ipv4() {
    assert!(check_valid_ip("192.168.0.123"));
    assert!(check_valid_ip("0.0.0.0"));
    assert!(check_valid_ip("255.255.255.255"));
    assert!(check_valid_ip("10.0.0.1"));
}

#[test]
fn test_invalid_ipv4() {
    assert!(!check_valid_ip("not-an-ip"));
    assert!(!check_valid_ip(""));
    assert!(!check_valid_ip("1.2.3"));
    assert!(!check_valid_ip("1.2.3.4.5"));
    assert!(!check_valid_ip("256.1.1.1"));
    assert!(!check_valid_ip("01.2.3.4"));
    assert!(!check_valid_ip("1.2.3.4 "));
    assert!(!check_valid_ip("a.b.c.d"));
    assert!(!check_valid_ip("1..2.3"));
}

#[test]
fn test_valid_ipv6() {
    assert!(check_valid_ip("::"));
    assert!(check_valid_ip("::1"));
    assert!(check_valid_ip("fe80::"));
    assert!(check_valid_ip("1:2:3:4:5:6:7:8"));
    assert!(check_valid_ip("2001:db8::8a2e:370:7334"));
    assert!(check_valid_ip("::ffff:192.168.0.1"));
    assert!(check_valid_ip("1:2:3:4:5:6:192.168.0.1"));
    assert!(check_valid_ip("ABCD:EF01:2345:6789:abcd:ef01:2345:6789"));
}

#[test]
fn test_invalid_ipv6() {
    assert!(!check_valid_ip(":"));
    assert!(!check_valid_ip(":::"));
    assert!(!check_valid_ip("1::2::3"));
    assert!(!check_valid_ip("12345::"));
    assert!(!check_valid_ip("1:2:3:4:5:6:7:8:9"));
    assert!(!check_valid_ip("::1:2:3:4:5:6:7:8"));
    assert!(!check_valid_ip("g::1"));
    assert!(!check_valid_ip("1:2:3:4:5:6:7"));
    assert!(!check_valid_ip("192.168.0.1::1"));
}
