use vpn_detector::ttl_check::CaptureAction;
use vpn_detector::ttl_check::OsFamily;
use vpn_detector::ttl_check::TtlDetector;

#[test]
fn classify_64_is_linux_and_clean() {
    let d = TtlDetector::new();
    let a = d.analyze_ttl(64);
    assert_eq!(a.value, 64);
    assert!(!a.is_suspicious);
    assert_eq!(a.probable_os, Some(OsFamily::LinuxUnix));
    assert!(!a.is_vpn);
}

#[test]
fn classify_40_is_suspicious_but_not_vpn_likely() {
    let d = TtlDetector::new();
    let a = d.analyze_ttl(40);
    assert!(a.is_suspicious);
    assert_eq!(a.probable_os, None);
    assert!(!a.is_vpn);
}

#[test]
fn classify_100_never_fires_windows_rule() {
    let d = TtlDetector::new();
    let a = d.analyze_ttl(100);
    assert!(a.is_suspicious);
    assert_eq!(a.probable_os, None);
    assert!(!a.is_vpn);
}

#[test]
fn classify_128_and_255_baselines() {
    let d = TtlDetector::new();
    let a = d.analyze_ttl(128);
    assert!(!a.is_suspicious);
    assert_eq!(a.probable_os, Some(OsFamily::Windows));
    assert!(!a.is_vpn);
    let a = d.analyze_ttl(255);
    assert!(!a.is_suspicious);
    assert_eq!(a.probable_os, Some(OsFamily::NetworkEquipment));
    assert!(!a.is_vpn);
}

#[test]
fn suspicious_ttl_baselines() {
    assert!(!TtlDetector::is_suspicious_ttl(64));
    assert!(!TtlDetector::is_suspicious_ttl(128));
    assert!(!TtlDetector::is_suspicious_ttl(255));
    assert!(TtlDetector::is_suspicious_ttl(63));
    assert!(TtlDetector::is_suspicious_ttl(0));
    assert!(TtlDetector::is_suspicious_ttl(200));
}

#[test]
fn start_is_idempotent_and_stop_clears() {
    let mut d = TtlDetector::new();
    assert!(!d.running);
    assert!(d.start());
    assert!(d.running);
    // A second start schedules nothing new.
    assert!(!d.start());
    assert!(d.running);
    d.stop();
    assert!(!d.running);
    // Starting again after a stop schedules a fresh task.
    assert!(d.start());
}

#[test]
fn extract_ttl_reads_offset_8() {
    let mut frame = vec![0u8; 20];
    frame[8] = 64;
    assert_eq!(TtlDetector::extract_ttl(&frame), Some(64));
    let short = vec![0u8; 19];
    assert_eq!(TtlDetector::extract_ttl(&short), None);
}

#[test]
fn capture_step_decisions() {
    let mut frame = vec![0u8; 40];
    frame[8] = 128;
    assert_eq!(TtlDetector::capture_step(false, Some(&frame)), CaptureAction::Exit);
    assert_eq!(TtlDetector::capture_step(true, None), CaptureAction::Skip);
    let short = vec![0u8; 10];
    assert_eq!(TtlDetector::capture_step(true, Some(&short)), CaptureAction::Skip);
    assert_eq!(TtlDetector::capture_step(true, Some(&frame)), CaptureAction::Deliver(128));
}
