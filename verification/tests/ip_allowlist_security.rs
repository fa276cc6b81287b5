use hyperion_vault::error::Error;
use hyperion_vault::ip_allowlist::{parse_ipv4, IpAllowlist, Ipv4};

fn ip(s: &str) -> Ipv4 {
    parse_ipv4(s).unwrap()
}

#[test]
fn empty_allowlist_denies_everything() {
    let allow = IpAllowlist::parse("").unwrap();
    assert!(allow.is_empty());
    assert!(!allow.contains(ip("10.0.0.1")));
    assert!(!allow.contains(ip("127.0.0.1")));
    assert!(!allow.contains(ip("0.0.0.0")));
}

#[test]
fn whitespace_only_allowlist_denies_everything() {
    let allow = IpAllowlist::parse("  ,  , ").unwrap();
    assert!(allow.is_empty());
    assert!(!allow.contains(ip("10.0.0.1")));
}

#[test]
fn single_address_matches_exactly() {
    let allow = IpAllowlist::parse("203.0.113.7").unwrap();
    assert!(allow.contains(ip("203.0.113.7")));
    assert!(!allow.contains(ip("203.0.113.8")));
    assert!(!allow.contains(ip("203.0.113.6")));
}

#[test]
fn cidr_block_matches_range_only() {
    let allow = IpAllowlist::parse("10.1.0.0/16").unwrap();
    assert!(allow.contains(ip("10.1.0.1")));
    assert!(allow.contains(ip("10.1.255.254")));
    assert!(!allow.contains(ip("10.2.0.1")));
    assert!(!allow.contains(ip("11.1.0.1")));
}

#[test]
fn multiple_entries_with_whitespace_are_parsed() {
    let allow = IpAllowlist::parse(" 192.168.1.10 , 10.0.0.0/24 ,172.16.5.5").unwrap();
    assert_eq!(allow.len(), 3);
    assert!(allow.contains(ip("192.168.1.10")));
    assert!(allow.contains(ip("10.0.0.200")));
    assert!(allow.contains(ip("172.16.5.5")));
    assert!(!allow.contains(ip("10.0.1.1")));
    assert!(!allow.contains(ip("8.8.8.8")));
}

#[test]
fn invalid_entries_are_rejected() {
    assert!(IpAllowlist::parse("not-an-ip").is_err());
    assert!(IpAllowlist::parse("999.1.1.1").is_err());
    assert!(IpAllowlist::parse("10.0.0.0/33").is_err());
    assert!(IpAllowlist::parse("::1").is_err());
    assert!(IpAllowlist::parse("10.0.0.1,bad").is_err());
}

#[test]
fn slash_32_is_equivalent_to_single_host() {
    let allow = IpAllowlist::parse("203.0.113.7/32").unwrap();
    assert!(allow.contains(ip("203.0.113.7")));
    assert!(!allow.contains(ip("203.0.113.8")));
}

#[test]
fn the_first_bad_entry_is_named() {
    match IpAllowlist::parse("10.0.0.1, bad ,worse") {
        Err(Error::InvalidAllowlist(entry)) => assert_eq!(entry, "bad"),
        _ => panic!("a bad entry must be refused"),
    }
}

#[test]
fn prefix_zero_admits_every_address() {
    let allow = IpAllowlist::parse("1.2.3.4/0").unwrap();
    assert!(allow.contains(ip("255.255.255.255")));
    assert!(allow.contains(ip("0.0.0.0")));
    let half = IpAllowlist::parse("128.0.0.0/1").unwrap();
    assert!(half.contains(ip("200.1.1.1")));
    assert!(!half.contains(ip("127.255.255.255")));
}

#[test]
fn dotted_addresses_follow_the_strict_form() {
    assert_eq!(parse_ipv4("1.2.3.4"), Some(Ipv4 { bits: 0x01020304 }));
    assert_eq!(parse_ipv4("255.255.255.255"), Some(Ipv4 { bits: u32::MAX }));
    for text in [
        "", "1.2.3", "1.2.3.4.5", "01.2.3.4", "1.2.3.256", "1..2.3", "+1.2.3.4", "1.2.3.4 ", "1.2.3.0004",
    ] {
        assert_eq!(parse_ipv4(text), None, "{text}");
    }
    assert_eq!(parse_ipv4("0.0.0.0"), Some(Ipv4 { bits: 0 }));
}

#[test]
fn a_copy_admits_the_same_addresses() {
    let allow = IpAllowlist::parse("10.1.0.0/16").unwrap().clone();
    assert_eq!(allow.len(), 1);
    assert!(allow.contains(ip("10.1.2.3")) && !allow.contains(ip("10.2.2.3")));
    assert!(IpAllowlist::default().is_empty());
}

#[test]
fn blocks_are_read_number_by_number() {
    let allow = IpAllowlist::parse("010.001.000.0/08").unwrap();
    assert!(allow.contains(ip("10.255.0.1")));
    assert!(!allow.contains(ip("11.0.0.1")));
    for bad in [
        "10.0.0.0/", "/8", "10.0.0/8", "10.0.0.0.0/8", "10.0.0.256/8", "10.0.0.0001/8",
        "10.0.0.0/008", "10.0.0.0/8/8", "10.0.0.0/+8", "10..0.0/8", "10.0.0.0 /8", "::/8",
    ] {
        assert!(IpAllowlist::parse(bad).is_err(), "{bad}");
    }
    assert!(IpAllowlist::parse("010.1.0.0").is_err());
}

#[test]
fn an_address_and_its_full_block_admit_the_same() {
    for text in ["203.0.113.7", "0.0.0.0", "255.255.255.255"] {
        let alone = IpAllowlist::parse(text).unwrap();
        let block = IpAllowlist::parse(&format!("{text}/32")).unwrap();
        for other in ["203.0.113.7", "203.0.113.8", "0.0.0.0", "255.255.255.255", "0.0.0.1"] {
            assert_eq!(alone.contains(ip(other)), block.contains(ip(other)));
            assert_eq!(alone.contains(ip(other)), other == text);
        }
    }
}
