use netmon::net::{endpoint_string, ip_string, pair_key, Cidr, Endpoint, IpAddress};

#[test]
fn local_address_classification() {
    assert!(IpAddress::v4(127, 0, 0, 1).is_local());
    assert!(IpAddress::v4(10, 1, 2, 3).is_local());
    assert!(IpAddress::v4(172, 16, 0, 1).is_local());
    assert!(IpAddress::v4(192, 168, 5, 5).is_local());
    assert!(IpAddress::v4(169, 254, 0, 1).is_local());
    assert!(!IpAddress::v4(8, 8, 8, 8).is_local());
    assert!(IpAddress::v6(0, 0, 0, 0, 0, 0, 0, 1).is_local());
    assert!(IpAddress::v6(0xfe80, 0, 0, 0, 0, 0, 0, 1).is_local());
    assert!(IpAddress::v6(0xfc00, 0, 0, 0, 0, 0, 0, 1).is_local());
    assert!(!IpAddress::v6(0x2001, 0xdb8, 0, 0, 0, 0, 0, 1).is_local());
}

#[test]
fn cidr_containment() {
    let net = Cidr::new(0xC0A80000, 16); // 192.168.0.0/16
    assert!(net.contains(&IpAddress::v4(192, 168, 200, 3)));
    assert!(!net.contains(&IpAddress::v4(192, 169, 0, 1)));
    assert!(!net.contains(&IpAddress::v6(0, 0, 0, 0, 0, 0, 0, 1)));
    let all = Cidr::new(0, 0);
    assert!(all.contains(&IpAddress::v4(8, 8, 8, 8)));
}

#[test]
fn pair_keys_are_direction_agnostic() {
    let a = Endpoint::new(IpAddress::v4(1, 2, 3, 4), 10);
    let b = Endpoint::new(IpAddress::v4(4, 3, 2, 1), 20);
    assert_eq!(pair_key(&a, &b), pair_key(&b, &a));
    let v6 = Endpoint::new(IpAddress::v6(0xfe80, 0, 0, 0, 0, 0, 0, 1), 10);
    assert_eq!(pair_key(&a, &v6), pair_key(&v6, &a));
    // IPv4 endpoints sort before IPv6 endpoints
    assert_eq!(pair_key(&a, &v6).first, a);
}

#[test]
fn rendering_addresses() {
    assert_eq!(ip_string(&IpAddress::v4(10, 0, 0, 1)), "10.0.0.1");
    assert_eq!(
        endpoint_string(&Endpoint::new(IpAddress::v4(127, 0, 0, 1), 8080)),
        "127.0.0.1:8080"
    );
    assert_eq!(
        endpoint_string(&Endpoint::new(IpAddress::v6(0xfe80, 0, 0, 0, 0, 0, 0, 1), 22)),
        "[fe80:0:0:0:0:0:0:1]:22"
    );
}
