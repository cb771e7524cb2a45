//! Stateless request-header screen: flags header names that reveal a proxy
//! or forwarded connection. Names are handled as bytes; matching is against
//! a fixed blocklist after ASCII lowercasing.

use vstd::prelude::*;
use vstd::seq_lib::group_filter_ensures;
use vstd::string::StringSliceAdditionalSpecFns;

verus! {

/// The one failure: suspicious header names were present. The payload lists
/// them, lowercased, in their order of appearance.
#[derive(Debug, Clone, PartialEq, Eq)]
pub enum HeaderError {
    SuspiciousHeaders(Vec<Vec<u8>>),
}

/// An ASCII byte lowercased.
pub open spec fn spec_lower_byte(b: u8) -> u8 {
    if 65 <= b <= 90 {
        (b + 32) as u8
    } else {
        b
    }
}

/// A byte string lowercased, byte by byte, as ASCII.
pub open spec fn spec_lower(s: Seq<u8>) -> Seq<u8> {
    s.map_values(|b: u8| spec_lower_byte(b))
}

/// The blocklist: header names that reveal a proxy, forwarded connection or
/// connecting-IP disclosure.
pub open spec fn spec_suspicious_name(name: Seq<u8>) -> bool {
    ||| name == "x-forwarded-for".spec_bytes()
    ||| name == "cf-connecting-ip".spec_bytes()
    ||| name == "proxy-connection".spec_bytes()
    ||| name == "via".spec_bytes()
    ||| name == "x-proxy-id".spec_bytes()
}

/// The names a request gets flagged for: each name lowercased, keeping
/// those on the blocklist, in order.
pub open spec fn spec_flagged(names: Seq<Vec<u8>>) -> Seq<Seq<u8>> {
    names.map_values(|n: Vec<u8>| spec_lower(n@)).filter(|n: Seq<u8>| spec_suspicious_name(n))
}

/// Lowercases a byte string as ASCII.
fn lower_bytes(s: &Vec<u8>) -> (r: Vec<u8>)
    ensures
        r@ == spec_lower(s@),
{
    let mut r: Vec<u8> = Vec::new();
    let n = s.len();
    let mut i: usize = 0;
    while i < n
        invariant
            n == s@.len(),
            0 <= i <= n,
            r@ =~= spec_lower(s@.subrange(0, i as int)),
        decreases n - i,
    {
        let b = s[i];
        let lb: u8 = if 65 <= b && b <= 90 {
            b + 32
        } else {
            b
        };
        r.push(lb);
        proof {
            assert(s@.subrange(0, i + 1).drop_last() =~= s@.subrange(0, i as int));
            assert(r@ =~= spec_lower(s@.subrange(0, i + 1)));
        }
        i = i + 1;
    }
    proof {
        assert(s@.subrange(0, n as int) =~= s@);
    }
    r
}

/// Whether two byte strings are equal.
fn bytes_eq(a: &Vec<u8>, b: &[u8]) -> (r: bool)
    ensures
        r == (a@ == b@),
{
    let n = a.len();
    if n != b.len() {
        return false;
    }
    let mut i: usize = 0;
    while i < n
        invariant
            n == a@.len() == b@.len(),
            0 <= i <= n,
            forall|j: int| 0 <= j < i ==> a@[j] == b@[j],
        decreases n - i,
    {
        if a[i] != b[i] {
            return false;
        }
        i = i + 1;
    }
    proof {
        assert(a@ =~= b@);
    }
    true
}

/// The stateless header screen.
pub struct HeaderAnalyzer;

impl HeaderAnalyzer {
    /// Whether a lowercased header name is on the blocklist.
    fn is_suspicious_name(name: &Vec<u8>) -> (r: bool)
        ensures
            r == spec_suspicious_name(name@),
    {
        bytes_eq(name, "x-forwarded-for".as_bytes()) || bytes_eq(
            name,
            "cf-connecting-ip".as_bytes(),
        ) || bytes_eq(name, "proxy-connection".as_bytes()) || bytes_eq(name, "via".as_bytes())
            || bytes_eq(name, "x-proxy-id".as_bytes())
    }

    /// Screens the header names of one request: accepts the request iff no
    /// lowercased name is on the blocklist, and otherwise reports exactly
    /// the flagged names, lowercased, in order.
    pub fn analyze(names: &Vec<Vec<u8>>) -> (r: Result<(), HeaderError>)
        ensures
            (r is Ok) == (spec_flagged(names@).len() == 0),
            r matches Err(e) ==> e matches HeaderError::SuspiciousHeaders(list)
                && list@.map_values(|v: Vec<u8>| v@) == spec_flagged(names@),
    {
        broadcast use group_filter_ensures;

        let mut flagged: Vec<Vec<u8>> = Vec::new();
        let n = names.len();
        let mut i: usize = 0;
        while i < n
            invariant
                n == names@.len(),
                0 <= i <= n,
                flagged@.map_values(|v: Vec<u8>| v@) =~= spec_flagged(names@.subrange(0, i as int)),
            decreases n - i,
        {
            let lowered = lower_bytes(&names[i]);
            let keep = Self::is_suspicious_name(&lowered);
            proof {
                reveal(Seq::filter);
                let pre = names@.subrange(0, i as int);
                let cur = names@.subrange(0, i + 1);
                assert(cur.drop_last() =~= pre);
                assert(cur.map_values(|n: Vec<u8>| spec_lower(n@)).drop_last() =~= pre.map_values(
                    |n: Vec<u8>| spec_lower(n@),
                ));
                assert(cur.map_values(|n: Vec<u8>| spec_lower(n@)).last() == spec_lower(
                    names@[i as int]@,
                ));
            }
            if keep {
                flagged.push(lowered);
                proof {
                    assert(flagged@.map_values(|v: Vec<u8>| v@) =~= spec_flagged(
                        names@.subrange(0, i + 1),
                    ));
                }
            } else {
                proof {
                    assert(flagged@.map_values(|v: Vec<u8>| v@) =~= spec_flagged(
                        names@.subrange(0, i + 1),
                    ));
                }
            }
            i = i + 1;
        }
        proof {
            assert(names@.subrange(0, n as int) =~= names@);
        }
        if flagged.len() > 0 {
            proof {
                assert(flagged@.map_values(|v: Vec<u8>| v@).len() == flagged@.len());
            }
            return Err(HeaderError::SuspiciousHeaders(flagged));
        }
        proof {
            assert(flagged@.map_values(|v: Vec<u8>| v@).len() == flagged@.len());
        }
        Ok(())
    }
}

} // verus!
