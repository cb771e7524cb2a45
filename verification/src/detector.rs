//! The detection orchestrator: queries the IP/ASN classifier, then the DNS
//! heuristics, and fuses the two signals into a score and a yes-or-no answer. The TTL
//! signal is computed elsewhere but deliberately not fused in.

use vstd::prelude::*;

use crate::dns_check::spec_check_outcome;
use crate::dns_check::DnsDetector;
use crate::dns_check::DnsError;
use crate::geo_ip::spec_addr_key;
use crate::geo_ip::spec_first_match;
use crate::geo_ip::spec_touch;
use crate::geo_ip::IpAddress;
use crate::geo_ip::IpDatabase;
use crate::geo_ip::CACHE_CAPACITY;

verus! {

/// Failures of the whole check: the failing signal's own error.
#[derive(Debug, Clone, PartialEq, Eq)]
pub enum DetectionError {
    IpError(crate::geo_ip::GeoIpError),
    DnsError(DnsError),
}

/// Score contribution of a reputation-table match.
pub const IP_MATCH_SCORE: u32 = 7000;

/// Scores at or above this threshold count as VPN traffic.
pub const VPN_THRESHOLD: u32 = 8000;

/// Per-signal breakdown of one check. The TTL signal is always absent: it
/// is computed by its analyzer but not yet fused into the score.
#[derive(Debug, Clone, Copy, PartialEq, Eq)]
pub struct DetectionDetails {
    pub ip_check: bool,
    pub dns_score: u32,
    pub ttl_analysis: Option<bool>,
}

/// The outcome of one check: the answer, the fused score, and the
/// breakdown behind it.
#[derive(Debug, Clone, Copy, PartialEq, Eq)]
pub struct DetectionResult {
    pub is_vpn: bool,
    pub score: u32,
    pub details: DetectionDetails,
}

/// The fused score: a reputation match weighs 0.7 of a point, the DNS score
/// adds on top, and the sum is deliberately not clamped, so it can exceed
/// one full point.
pub open spec fn spec_total_score(ip_check: bool, dns_score: u32) -> int {
    (if ip_check {
        IP_MATCH_SCORE as int
    } else {
        0
    }) + dns_score
}

/// A score counts as VPN iff it reaches the threshold.
pub open spec fn spec_meets_threshold(total_score: u32) -> bool {
    total_score >= VPN_THRESHOLD
}

/// Whether a fused score counts as VPN: a score exactly at the threshold
/// does, one the least bit below does not.
pub fn meets_threshold(total_score: u32) -> (r: bool)
    ensures
        r == spec_meets_threshold(total_score),
{
    total_score >= VPN_THRESHOLD
}

/// The detection orchestrator: owns the classifier and the DNS analyzer and
/// fuses their signals.
pub struct VpnDetectorImpl {
    ip_db: IpDatabase,
    dns_detector: DnsDetector,
}

impl VpnDetectorImpl {
    /// The classifier this orchestrator queries.
    pub closed spec fn spec_ip_db(self) -> IpDatabase {
        self.ip_db
    }

    /// The DNS analyzer this orchestrator queries.
    pub closed spec fn spec_dns_detector(self) -> DnsDetector {
        self.dns_detector
    }

    /// The orchestrator is well formed when its classifier is.
    pub open spec fn wf(self) -> bool {
        self.spec_ip_db().wf()
    }

    /// An orchestrator over the given classifier and DNS analyzer.
    pub fn new(ip_db: IpDatabase, dns_detector: DnsDetector) -> (r: VpnDetectorImpl)
        ensures
            r.spec_ip_db() == ip_db,
            r.spec_dns_detector() == dns_detector,
    {
        VpnDetectorImpl { ip_db, dns_detector }
    }

    /// One full check of an address. Queries the classifier first — its
    /// cache is touched even when the DNS check later fails — then scores
    /// the DNS probe outcomes; any DNS failure aborts the whole check with
    /// that error, without retry or partial scoring. On success the fused
    /// score is the weighted reputation signal plus the DNS score, unclamped,
    /// and the answer compares it against the fixed threshold.
    pub fn check_vpn(
        &mut self,
        ip: IpAddress,
        reverse: Result<Vec<String>, DnsError>,
        baseline: Result<u64, DnsError>,
        first: Result<u64, DnsError>,
        second: Result<u64, DnsError>,
    ) -> (r: Result<DetectionResult, DetectionError>)
        requires
            old(self).wf(),
        ensures
            final(self).wf(),
            final(self).spec_dns_detector() == old(self).spec_dns_detector(),
            final(self).spec_ip_db().spec_entries() == old(self).spec_ip_db().spec_entries(),
            final(self).spec_ip_db().spec_cache_order() == spec_touch(
                old(self).spec_ip_db().spec_cache_order(),
                spec_addr_key(ip),
                CACHE_CAPACITY as nat,
            ),
            spec_check_outcome(reverse, baseline, first, second) matches Err(e) ==> r
                == Err::<DetectionResult, DetectionError>(DetectionError::DnsError(e)),
            spec_check_outcome(reverse, baseline, first, second) matches Ok(ds) ==> {
                &&& r matches Ok(d)
                &&& d.details.ip_check == (spec_first_match(
                    old(self).spec_ip_db().spec_entries(),
                    ip,
                ) != 0)
                &&& d.details.dns_score == ds
                &&& d.details.ttl_analysis is None
                &&& d.score == spec_total_score(d.details.ip_check, ds)
                &&& d.is_vpn == spec_meets_threshold(d.score)
            },
    {
        let ip_check = self.ip_db.is_vpn_ip(ip);

        let dns_score = match self.dns_detector.check_vpn_patterns(
            reverse,
            baseline,
            first,
            second,
        ) {
            Ok(ds) => ds,
            Err(e) => {
                return Err(DetectionError::DnsError(e));
            },
        };

        let base: u32 = if ip_check {
            IP_MATCH_SCORE
        } else {
            0
        };
        let total_score = base + dns_score;

        Ok(
            DetectionResult {
                is_vpn: meets_threshold(total_score),
                score: total_score,
                details: DetectionDetails { ip_check, dns_score, ttl_analysis: None },
            },
        )
    }
}

} // verus!
