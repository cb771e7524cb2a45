use vpn_detector::detector::DetectionError;
use vpn_detector::detector::VpnDetectorImpl;
use vpn_detector::detector::meets_threshold;
use vpn_detector::dns_check::DnsDetector;
use vpn_detector::dns_check::DnsError;
use vpn_detector::geo_ip::CsvRecord;
use vpn_detector::geo_ip::IpAddress;
use vpn_detector::geo_ip::IpDatabase;

fn rec(cidr: &str, asn: &str, provider: &str) -> CsvRecord {
    CsvRecord { cidr: cidr.to_string(), asn: asn.to_string(), provider: provider.to_string() }
}

fn v4(a: u8, b: u8, c: u8, d: u8) -> IpAddress {
    IpAddress::V4(u32::from_be_bytes([a, b, c, d]))
}

fn detector_with(rows: Vec<CsvRecord>) -> VpnDetectorImpl {
    let db = IpDatabase::load(rows).unwrap();
    VpnDetectorImpl::new(db, DnsDetector::new(3))
}

#[test]
fn threshold_is_inclusive() {
    assert!(meets_threshold(8000));
    assert!(!meets_threshold(7999));
}

#[test]
fn matched_ip_with_half_point_dns_is_vpn() {
    let mut det = detector_with(vec![rec("203.0.113.0/24", "64500", "prov")]);
    // DNS score of 0.5: slow baseline (0.2) plus jitter (0.3).
    let r = det
        .check_vpn(v4(203, 0, 113, 5), Ok(vec![]), Ok(501), Ok(0), Ok(101))
        .unwrap();
    assert!(r.details.ip_check);
    assert_eq!(r.details.dns_score, 5000);
    // The fused score is not clamped to one full point.
    assert_eq!(r.score, 12000);
    assert!(r.is_vpn);
    assert_eq!(r.details.ttl_analysis, None);
}

#[test]
fn unmatched_ip_with_half_point_dns_is_not_vpn() {
    let mut det = detector_with(vec![rec("203.0.113.0/24", "64500", "prov")]);
    let r = det
        .check_vpn(v4(198, 51, 100, 1), Ok(vec![]), Ok(501), Ok(0), Ok(101))
        .unwrap();
    assert!(!r.details.ip_check);
    assert_eq!(r.details.dns_score, 5000);
    assert_eq!(r.score, 5000);
    assert!(!r.is_vpn);
}

#[test]
fn matched_ip_alone_is_below_threshold() {
    let mut det = detector_with(vec![rec("203.0.113.0/24", "64500", "prov")]);
    let r = det
        .check_vpn(v4(203, 0, 113, 5), Ok(vec![]), Ok(10), Ok(10), Ok(10))
        .unwrap();
    assert!(r.details.ip_check);
    assert_eq!(r.score, 7000);
    assert!(!r.is_vpn);
}

#[test]
fn reverse_hostname_plus_match_reaches_threshold() {
    let mut det = detector_with(vec![rec("203.0.113.0/24", "64500", "prov")]);
    let r = det
        .check_vpn(
            v4(203, 0, 113, 5),
            Ok(vec!["mail.vpn.example.net".to_string()]),
            Ok(10),
            Ok(10),
            Ok(10),
        )
        .unwrap();
    assert_eq!(r.score, 11000);
    assert!(r.is_vpn);
}

#[test]
fn dns_failure_aborts_whole_check() {
    let mut det = detector_with(vec![rec("203.0.113.0/24", "64500", "prov")]);
    let r = det.check_vpn(v4(203, 0, 113, 5), Err(DnsError::Timeout), Ok(10), Ok(10), Ok(10));
    assert_eq!(r, Err(DetectionError::DnsError(DnsError::Timeout)));
}
