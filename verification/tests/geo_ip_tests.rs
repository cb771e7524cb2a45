use vpn_detector::geo_ip::parse_asn;
use vpn_detector::geo_ip::CsvRecord;
use vpn_detector::geo_ip::GeoIpError;
use vpn_detector::geo_ip::IpAddress;
use vpn_detector::geo_ip::IpDatabase;

fn rec(cidr: &str, asn: &str, provider: &str) -> CsvRecord {
    CsvRecord { cidr: cidr.to_string(), asn: asn.to_string(), provider: provider.to_string() }
}

fn v4(a: u8, b: u8, c: u8, d: u8) -> IpAddress {
    IpAddress::V4(u32::from_be_bytes([a, b, c, d]))
}

#[test]
fn classify_match_in_range() {
    let mut db = IpDatabase::load(vec![rec("203.0.113.0/24", "64500", "prov")]).unwrap();
    assert!(db.is_vpn_ip(v4(203, 0, 113, 5)));
    assert!(!db.is_vpn_ip(v4(203, 0, 114, 5)));
    assert_eq!(db.cached_asn(v4(203, 0, 113, 5)), Some(64500));
    assert_eq!(db.cached_asn(v4(203, 0, 114, 5)), Some(0));
}

#[test]
fn classify_twice_is_identical() {
    let mut db = IpDatabase::load(vec![
        rec("10.0.0.0/8", "64501", "a"),
        rec("192.0.2.0/24", "0", "b"),
    ])
    .unwrap();
    for addr in [v4(10, 1, 2, 3), v4(192, 0, 2, 9), v4(8, 8, 8, 8)] {
        let first = db.is_vpn_ip(addr);
        let second = db.is_vpn_ip(addr);
        assert_eq!(first, second);
    }
}

#[test]
fn overlapping_ranges_first_match_wins() {
    let mut db = IpDatabase::load(vec![
        rec("203.0.113.0/25", "0", "zero-first"),
        rec("203.0.113.0/24", "64500", "later"),
    ])
    .unwrap();
    // Both ranges contain the address; the earlier row's ASN (0) wins.
    assert!(!db.is_vpn_ip(v4(203, 0, 113, 5)));
    assert_eq!(db.cached_asn(v4(203, 0, 113, 5)), Some(0));

    let mut db2 = IpDatabase::load(vec![
        rec("203.0.113.0/24", "64500", "wide-first"),
        rec("203.0.113.0/25", "0", "later"),
    ])
    .unwrap();
    assert!(db2.is_vpn_ip(v4(203, 0, 113, 5)));
    assert_eq!(db2.cached_asn(v4(203, 0, 113, 5)), Some(64500));
}

#[test]
fn cache_evicts_oldest_beyond_capacity() {
    let mut db = IpDatabase::load(vec![rec("10.0.0.0/8", "64501", "a")]).unwrap();
    for i in 0..1001u32 {
        db.is_vpn_ip(IpAddress::V4(i));
    }
    assert_eq!(db.cache_len(), 1000);
    // The very first address was the least recently used and is gone.
    assert_eq!(db.cached_asn(IpAddress::V4(0)), None);
    // The most recent 1000 all remain.
    assert!(db.cached_asn(IpAddress::V4(1)).is_some());
    assert!(db.cached_asn(IpAddress::V4(1000)).is_some());
}

#[test]
fn cache_hit_refreshes_recency() {
    let mut db = IpDatabase::load(vec![rec("10.0.0.0/8", "64501", "a")]).unwrap();
    for i in 0..1000u32 {
        db.is_vpn_ip(IpAddress::V4(i));
    }
    // Touch the oldest entry: a hit, which must refresh its recency.
    db.is_vpn_ip(IpAddress::V4(0));
    // A fresh address now evicts address 1, not address 0.
    db.is_vpn_ip(IpAddress::V4(5000));
    assert!(db.cached_asn(IpAddress::V4(0)).is_some());
    assert_eq!(db.cached_asn(IpAddress::V4(1)), None);
    assert_eq!(db.cache_len(), 1000);
}

#[test]
fn load_rejects_bad_cidr() {
    let err = IpDatabase::load(vec![rec("not-a-range", "64500", "p")]).unwrap_err();
    assert_eq!(err, GeoIpError::InvalidCidr("not-a-range".to_string()));
}

#[test]
fn load_rejects_bad_asn() {
    let err = IpDatabase::load(vec![rec("203.0.113.0/24", "abc", "p")]).unwrap_err();
    assert_eq!(err, GeoIpError::InvalidAsn("abc".to_string()));
    let err = IpDatabase::load(vec![rec("203.0.113.0/24", "", "p")]).unwrap_err();
    assert_eq!(err, GeoIpError::InvalidAsn("".to_string()));
    let err = IpDatabase::load(vec![rec("203.0.113.0/24", "99999999999", "p")]).unwrap_err();
    assert_eq!(err, GeoIpError::InvalidAsn("99999999999".to_string()));
}

#[test]
fn load_accepts_plus_prefixed_asn() {
    let mut db = IpDatabase::load(vec![rec("203.0.113.0/24", "+64500", "p")]).unwrap();
    assert!(db.is_vpn_ip(v4(203, 0, 113, 1)));
}

#[test]
fn load_reports_first_offending_row() {
    let err = IpDatabase::load(vec![
        rec("203.0.113.0/24", "64500", "ok"),
        rec("bad-range", "64501", "bad cidr"),
        rec("10.0.0.0/8", "bad", "bad asn"),
    ])
    .unwrap_err();
    assert_eq!(err, GeoIpError::InvalidCidr("bad-range".to_string()));
}

#[test]
fn load_rejects_partial_tables_entirely() {
    let err = IpDatabase::load(vec![
        rec("203.0.113.0/24", "64500", "ok"),
        rec("10.0.0.0/8", "nope", "bad"),
    ]);
    assert!(err.is_err());
}

#[test]
fn ipv6_ranges_work() {
    let mut db = IpDatabase::load(vec![rec("2001:db8::/32", "64502", "six")]).unwrap();
    let inside = IpAddress::V6(0x2001_0db8_0000_0000_0000_0000_0000_0001u128);
    let outside = IpAddress::V6(0x2001_0db9_0000_0000_0000_0000_0000_0001u128);
    assert!(db.is_vpn_ip(inside));
    assert!(!db.is_vpn_ip(outside));
}

#[test]
fn v4_range_never_contains_v6_address() {
    let mut db = IpDatabase::load(vec![rec("0.0.0.0/0", "64500", "all-v4")]).unwrap();
    assert!(db.is_vpn_ip(v4(1, 2, 3, 4)));
    assert!(!db.is_vpn_ip(IpAddress::V6(1)));
}

#[test]
fn zero_asn_is_not_vpn() {
    let mut db = IpDatabase::load(vec![rec("198.51.100.0/24", "0", "benign")]).unwrap();
    assert!(!db.is_vpn_ip(v4(198, 51, 100, 7)));
    assert_eq!(db.cached_asn(v4(198, 51, 100, 7)), Some(0));
}

#[test]
fn asn_parser_matches_decimal_syntax() {
    assert_eq!(parse_asn("0"), Some(0));
    assert_eq!(parse_asn("64500"), Some(64500));
    assert_eq!(parse_asn("+64500"), Some(64500));
    assert_eq!(parse_asn("4294967295"), Some(u32::MAX));
    assert_eq!(parse_asn("4294967296"), None);
    assert_eq!(parse_asn(""), None);
    assert_eq!(parse_asn("+"), None);
    assert_eq!(parse_asn("-1"), None);
    assert_eq!(parse_asn("12a"), None);
    assert_eq!(parse_asn(" 12"), None);
}
