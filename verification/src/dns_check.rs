//! DNS behaviour heuristics: turns the outcomes of a reverse lookup and
//! three timed forward lookups into a partial score. The lookups themselves
//! are network I/O and live outside the library; the scoring policy here is
//! a pure function of their outcomes.

use vstd::prelude::*;

verus! {

/// Errors of the DNS probes.
#[derive(Debug, Clone, PartialEq, Eq)]
pub enum DnsError {
    /// A lookup missed its deadline.
    Timeout,
    /// The resolver answered with the given error code.
    ServerError(u16),
    /// The resolver failed; the text describes how.
    NetworkError(String),
}

/// Score contribution of a reverse hostname that names VPN infrastructure.
pub const REVERSE_NAME_SCORE: u32 = 4000;

/// Score contribution of a slow baseline forward lookup.
pub const SLOW_BASELINE_SCORE: u32 = 2000;

/// Score contribution of jittery repeated forward lookups.
pub const JITTER_SCORE: u32 = 3000;

/// A baseline forward lookup slower than this many milliseconds scores.
pub const SLOW_BASELINE_MS: u64 = 500;

/// Two repeated lookups whose latencies differ by more than this many
/// milliseconds score.
pub const JITTER_MS: u64 = 100;

/// The substring that marks a reverse hostname as VPN infrastructure.
pub open spec fn spec_vpn_pattern() -> Seq<char> {
    seq!['v', 'p', 'n']
}

/// The suffix that marks a reverse hostname as a VPS host.
pub open spec fn spec_vps_suffix() -> Seq<char> {
    seq!['.', 'v', 'p', 's']
}

/// The pattern occurs in `h` at position `i`.
pub open spec fn spec_contains_at(h: Seq<char>, p: Seq<char>, i: int) -> bool {
    0 <= i && i + p.len() <= h.len() && h.subrange(i, i + p.len()) == p
}

/// The pattern occurs somewhere in `h`.
pub open spec fn spec_contains_seq(h: Seq<char>, p: Seq<char>) -> bool {
    exists|i: int| spec_contains_at(h, p, i)
}

/// `h` ends with the pattern.
pub open spec fn spec_ends_with(h: Seq<char>, p: Seq<char>) -> bool {
    h.len() >= p.len() && h.subrange(h.len() - p.len(), h.len() as int) == p
}

/// A hostname names VPN infrastructure: it contains `vpn` or ends in
/// `.vps`, case-sensitively.
pub open spec fn spec_vpn_hostname(h: Seq<char>) -> bool {
    spec_contains_seq(h, spec_vpn_pattern()) || spec_ends_with(h, spec_vps_suffix())
}

/// Some hostname of the answer names VPN infrastructure.
pub open spec fn spec_any_vpn_hostname(hosts: Seq<String>) -> bool {
    exists|i: int| 0 <= i < hosts.len() && spec_vpn_hostname(#[trigger] hosts[i]@)
}

/// Two latencies differ by more than the jitter bound.
pub open spec fn spec_jitter(first_ms: u64, second_ms: u64) -> bool {
    (if first_ms >= second_ms {
        first_ms - second_ms
    } else {
        second_ms - first_ms
    }) > JITTER_MS
}

/// The DNS score of successful probes: the sum of the reverse-hostname,
/// slow-baseline and jitter contributions, at most 0.9 of a point.
pub open spec fn spec_dns_score(
    hosts: Seq<String>,
    baseline_ms: u64,
    first_ms: u64,
    second_ms: u64,
) -> u32 {
    ((if spec_any_vpn_hostname(hosts) {
        REVERSE_NAME_SCORE
    } else {
        0u32
    }) + (if baseline_ms > SLOW_BASELINE_MS {
        SLOW_BASELINE_SCORE
    } else {
        0u32
    }) + (if spec_jitter(first_ms, second_ms) {
        JITTER_SCORE
    } else {
        0u32
    })) as u32
}

/// The outcome of the whole check: the first failing probe's error, in probe
/// order, or the score of the successful probes. No partial score exists.
pub open spec fn spec_check_outcome(
    reverse: Result<Vec<String>, DnsError>,
    baseline: Result<u64, DnsError>,
    first: Result<u64, DnsError>,
    second: Result<u64, DnsError>,
) -> Result<u32, DnsError> {
    match reverse {
        Err(e) => Err(e),
        Ok(hosts) => match baseline {
            Err(e) => Err(e),
            Ok(b) => match first {
                Err(e) => Err(e),
                Ok(f) => match second {
                    Err(e) => Err(e),
                    Ok(s) => Ok(spec_dns_score(hosts@, b, f, s)),
                },
            },
        },
    }
}

/// Whether a hostname contains `vpn` or ends with `.vps`.
pub fn hostname_matches(h: &str) -> (r: bool)
    ensures
        r == spec_vpn_hostname(h@),
{
    proof {
        assert('v' as u32 == 118);
        assert('p' as u32 == 112);
        assert('n' as u32 == 110);
        assert('s' as u32 == 115);
        assert('.' as u32 == 46);
    }
    let n = h.unicode_len();
    if n >= 4 {
        let c0 = h.get_char(n - 4);
        let c1 = h.get_char(n - 3);
        let c2 = h.get_char(n - 2);
        let c3 = h.get_char(n - 1);
        if c0 as u32 == 46 && c1 as u32 == 118 && c2 as u32 == 112 && c3 as u32 == 115 {
            proof {
                assert(h@.subrange(n - 4, n as int) =~= spec_vps_suffix());
            }
            return true;
        }
    }
    if n < 3 {
        proof {
            assert forall|i: int| !spec_contains_at(h@, spec_vpn_pattern(), i) by {}
        }
        return false;
    }
    let mut i: usize = 0;
    while i <= n - 3
        invariant
            n == h@.len(),
            3 <= n,
            0 <= i <= n - 2,
            forall|j: int| 0 <= j < i ==> !spec_contains_at(h@, spec_vpn_pattern(), j),
        decreases n - i,
    {
        let c0 = h.get_char(i);
        let c1 = h.get_char(i + 1);
        let c2 = h.get_char(i + 2);
        if c0 as u32 == 118 && c1 as u32 == 112 && c2 as u32 == 110 {
            proof {
                assert(h@.subrange(i as int, i + 3) =~= spec_vpn_pattern());
                assert(spec_contains_at(h@, spec_vpn_pattern(), i as int));
            }
            return true;
        }
        proof {
            assert(h@.subrange(i as int, i + 3)[0] == h@[i as int]);
            assert(h@.subrange(i as int, i + 3)[1] == h@[i + 1]);
            assert(h@.subrange(i as int, i + 3)[2] == h@[i + 2]);
            assert(!spec_contains_at(h@, spec_vpn_pattern(), i as int));
        }
        i = i + 1;
    }
    proof {
        assert forall|j: int| !spec_contains_at(h@, spec_vpn_pattern(), j) by {
            if 0 <= j && j + 3 <= n {
                assert(j < i);
            }
        }
    }
    false
}

/// The DNS heuristic analyzer: remembers the configured probe deadline; the
/// probes themselves run outside the library and hand their outcomes in.
#[derive(Debug, Clone)]
pub struct DnsDetector {
    pub timeout_sec: u64,
}

impl DnsDetector {
    /// An analyzer whose probes are bounded by the given deadline.
    pub fn new(timeout_sec: u64) -> (r: DnsDetector)
        ensures
            r.timeout_sec == timeout_sec,
    {
        DnsDetector { timeout_sec }
    }

    /// The score of successful probes: reverse hostnames naming VPN
    /// infrastructure, a slow baseline lookup, and jittery repeated lookups
    /// each contribute their fixed share.
    pub fn dns_score(
        hostnames: &Vec<String>,
        baseline_ms: u64,
        first_ms: u64,
        second_ms: u64,
    ) -> (r: u32)
        ensures
            r == spec_dns_score(hostnames@, baseline_ms, first_ms, second_ms),
    {
        let mut score: u32 = 0;
        let mut found = false;
        let n = hostnames.len();
        let mut i: usize = 0;
        while i < n
            invariant
                n == hostnames@.len(),
                0 <= i <= n,
                found == spec_any_vpn_hostname(hostnames@.subrange(0, i as int)),
            decreases n - i,
        {
            let m = hostname_matches(hostnames[i].as_str());
            proof {
                assert(hostnames@.subrange(0, i + 1).drop_last() =~= hostnames@.subrange(
                    0,
                    i as int,
                ));
                assert(hostnames@.subrange(0, i + 1).last() == hostnames@[i as int]);
                if m {
                    assert(spec_vpn_hostname(hostnames@.subrange(0, i + 1)[i as int]@));
                }
                if !m && !found {
                    assert forall|k: int|
                        0 <= k < i + 1 implies !spec_vpn_hostname(
                        #[trigger] hostnames@.subrange(0, i + 1)[k]@,
                    ) by {
                        if k < i {
                            assert(hostnames@.subrange(0, i as int)[k] == hostnames@[k]);
                        }
                    }
                }
            }
            found = found || m;
            i = i + 1;
        }
        proof {
            assert(hostnames@.subrange(0, n as int) =~= hostnames@);
        }
        if found {
            score = REVERSE_NAME_SCORE;
        }
        if baseline_ms > SLOW_BASELINE_MS {
            score = score + SLOW_BASELINE_SCORE;
        }
        let diff = if first_ms >= second_ms {
            first_ms - second_ms
        } else {
            second_ms - first_ms
        };
        if diff > JITTER_MS {
            score = score + JITTER_SCORE;
        }
        score
    }

    /// The whole check over the probes' outcomes, in probe order: the first
    /// failure aborts the check with that error, so no partial score is ever
    /// returned; only fully successful probes yield a score.
    pub fn check_vpn_patterns(
        &self,
        reverse: Result<Vec<String>, DnsError>,
        baseline: Result<u64, DnsError>,
        first: Result<u64, DnsError>,
        second: Result<u64, DnsError>,
    ) -> (r: Result<u32, DnsError>)
        ensures
            r == spec_check_outcome(reverse, baseline, first, second),
    {
        let hosts = match reverse {
            Err(e) => {
                return Err(e);
            },
            Ok(hosts) => hosts,
        };
        let b = match baseline {
            Err(e) => {
                return Err(e);
            },
            Ok(b) => b,
        };
        let f = match first {
            Err(e) => {
                return Err(e);
            },
            Ok(f) => f,
        };
        let s = match second {
            Err(e) => {
                return Err(e);
            },
            Ok(s) => s,
        };
        Ok(Self::dns_score(&hosts, b, f, s))
    }
}

} // verus!
