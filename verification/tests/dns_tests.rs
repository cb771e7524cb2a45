use vpn_detector::dns_check::hostname_matches;
use vpn_detector::dns_check::DnsDetector;
use vpn_detector::dns_check::DnsError;

fn hosts(names: &[&str]) -> Vec<String> {
    names.iter().map(|n| n.to_string()).collect()
}

#[test]
fn reverse_hostname_with_vpn_scores_exactly_04() {
    // Latency signals held at baseline: no latency or jitter bonus.
    let score = DnsDetector::dns_score(&hosts(&["mail.vpn.example.net"]), 10, 10, 10);
    assert_eq!(score, 4000);
}

#[test]
fn vps_suffix_scores() {
    assert_eq!(DnsDetector::dns_score(&hosts(&["host.vps"]), 10, 10, 10), 4000);
    // ".vps" must be a suffix, not an inner substring.
    assert_eq!(DnsDetector::dns_score(&hosts(&["host.vps.example"]), 10, 10, 10), 0);
}

#[test]
fn hostname_match_is_case_sensitive() {
    assert_eq!(DnsDetector::dns_score(&hosts(&["mail.VPN.example.net"]), 10, 10, 10), 0);
    assert_eq!(DnsDetector::dns_score(&hosts(&["mail.example.com"]), 10, 10, 10), 0);
}

#[test]
fn slow_baseline_scores() {
    assert_eq!(DnsDetector::dns_score(&hosts(&[]), 501, 10, 10), 2000);
    assert_eq!(DnsDetector::dns_score(&hosts(&[]), 500, 10, 10), 0);
}

#[test]
fn jitter_scores_either_direction() {
    assert_eq!(DnsDetector::dns_score(&hosts(&[]), 10, 0, 101), 3000);
    assert_eq!(DnsDetector::dns_score(&hosts(&[]), 10, 101, 0), 3000);
    assert_eq!(DnsDetector::dns_score(&hosts(&[]), 10, 0, 100), 0);
}

#[test]
fn all_signals_sum() {
    let score = DnsDetector::dns_score(&hosts(&["a.vpn.example"]), 501, 0, 101);
    assert_eq!(score, 9000);
}

#[test]
fn check_short_circuits_on_reverse_failure() {
    let d = DnsDetector::new(3);
    let r = d.check_vpn_patterns(Err(DnsError::Timeout), Ok(10), Ok(10), Ok(10));
    assert_eq!(r, Err(DnsError::Timeout));
}

#[test]
fn check_short_circuits_on_baseline_failure() {
    let d = DnsDetector::new(3);
    let r = d.check_vpn_patterns(
        Ok(hosts(&["mail.vpn.example.net"])),
        Err(DnsError::NetworkError("resolver down".to_string())),
        Ok(10),
        Ok(10),
    );
    assert_eq!(r, Err(DnsError::NetworkError("resolver down".to_string())));
}

#[test]
fn check_short_circuits_on_repeat_lookup_failures() {
    let d = DnsDetector::new(3);
    let r = d.check_vpn_patterns(Ok(hosts(&[])), Ok(10), Err(DnsError::Timeout), Ok(10));
    assert_eq!(r, Err(DnsError::Timeout));
    let r = d.check_vpn_patterns(Ok(hosts(&[])), Ok(10), Ok(10), Err(DnsError::ServerError(2)));
    assert_eq!(r, Err(DnsError::ServerError(2)));
}

#[test]
fn check_scores_on_success() {
    let d = DnsDetector::new(3);
    let r = d.check_vpn_patterns(Ok(hosts(&["mail.vpn.example.net"])), Ok(10), Ok(10), Ok(10));
    assert_eq!(r, Ok(4000));
}

#[test]
fn new_keeps_timeout() {
    let d = DnsDetector::new(7);
    assert_eq!(d.timeout_sec, 7);
}

#[test]
fn hostname_matcher_edges() {
    assert!(hostname_matches("vpn"));
    assert!(hostname_matches("a.vps"));
    assert!(!hostname_matches(".vp"));
    assert!(!hostname_matches(""));
    assert!(!hostname_matches("vp"));
    assert!(hostname_matches("xxvpnxx"));
}
