//! IP/ASN reputation classifier: an immutable, ordered table of
//! network-range-to-ASN entries with first-match-wins lookup, in front of a
//! bounded least-recently-used cache of resolved ASNs keyed by address.

use vstd::prelude::*;

verus! {

/// An IP address as a plain value: an IPv4 address as its 32-bit number, or
/// an IPv6 address as its 128-bit number.
#[derive(Debug, Clone, Copy, PartialEq, Eq, Structural)]
pub enum IpAddress {
    V4(u32),
    V6(u128),
}

/// The cache key of an address: a tag telling the families apart, beside the
/// numeric value widened to 128 bits.
pub open spec fn spec_addr_key(a: IpAddress) -> (bool, u128) {
    match a {
        IpAddress::V4(v) => (true, v as u128),
        IpAddress::V6(v) => (false, v),
    }
}

/// Distinct addresses have distinct cache keys.
pub proof fn lemma_addr_key_injective(a: IpAddress, b: IpAddress)
    ensures
        spec_addr_key(a) == spec_addr_key(b) ==> a == b,
{
}

/// A network range: a base address and a prefix length, one variant per
/// address family.
#[derive(Debug, Clone, Copy, PartialEq, Eq, Structural)]
pub enum CidrBlock {
    V4 { base: u32, prefix: u8 },
    V6 { base: u128, prefix: u8 },
}

/// A range is well formed when its prefix length fits its address family.
pub open spec fn spec_cidr_wf(c: CidrBlock) -> bool {
    match c {
        CidrBlock::V4 { base, prefix } => prefix <= 32,
        CidrBlock::V6 { base, prefix } => prefix <= 128,
    }
}

/// Range membership: the address agrees with the base on the prefix bits.
/// An address of the other family is never contained.
pub open spec fn spec_cidr_contains(c: CidrBlock, a: IpAddress) -> bool {
    match (c, a) {
        (CidrBlock::V4 { base, prefix }, IpAddress::V4(addr)) => {
            prefix == 0 || (addr >> (32u32 - prefix as u32)) == (base >> (32u32 - prefix as u32))
        },
        (CidrBlock::V6 { base, prefix }, IpAddress::V6(addr)) => {
            prefix == 0 || (addr >> (128u128 - prefix as u128)) == (base >> (
            128u128 - prefix as u128))
        },
        _ => false,
    }
}

impl CidrBlock {
    /// Whether this range contains the address.
    pub fn contains(&self, a: IpAddress) -> (r: bool)
        requires
            spec_cidr_wf(*self),
        ensures
            r == spec_cidr_contains(*self, a),
    {
        match (self, a) {
            (CidrBlock::V4 { base, prefix }, IpAddress::V4(addr)) => {
                if *prefix == 0 {
                    true
                } else {
                    let shift: u32 = 32u32 - (*prefix as u32);
                    (addr >> shift) == (*base >> shift)
                }
            },
            (CidrBlock::V6 { base, prefix }, IpAddress::V6(addr)) => {
                if *prefix == 0 {
                    true
                } else {
                    let shift: u128 = 128u128 - (*prefix as u128);
                    (addr >> shift) == (*base >> shift)
                }
            },
            _ => false,
        }
    }
}

/// Failures of loading the reputation table. Each variant carries the
/// offending value.
#[derive(Debug, Clone, PartialEq, Eq)]
pub enum GeoIpError {
    CsvError(String),
    IoError(String),
    InvalidCidr(String),
    InvalidAsn(String),
}

/// One row of the reputation table as read from its row-oriented input:
/// a network range, an ASN, and a provider label, all still text.
#[derive(Debug, Clone)]
pub struct CsvRecord {
    pub cidr: String,
    pub asn: String,
    pub provider: String,
}

/// One loaded reputation entry.
#[derive(Debug, Clone)]
pub struct IpEntry {
    pub cidr: CidrBlock,
    pub asn: u32,
    pub provider: String,
}

// ---------------------------------------------------------------------------
// ASN parsing: the decimal syntax accepted by Rust's `u32` parser, stated
// exactly and proved.
// ---------------------------------------------------------------------------

/// A decimal digit.
pub open spec fn spec_digit(c: char) -> bool {
    '0' <= c && c <= '9'
}

/// The numeric value of a digit sequence, most significant first.
pub open spec fn spec_digits_value(s: Seq<char>) -> int
    decreases s.len(),
{
    if s.len() == 0 {
        0
    } else {
        spec_digits_value(s.drop_last()) * 10 + (s.last() as u32 - '0' as u32)
    }
}

/// A nonempty, all-digit sequence.
pub open spec fn spec_all_digits(s: Seq<char>) -> bool {
    s.len() > 0 && forall|i: int| 0 <= i < s.len() ==> spec_digit(s[i])
}

/// The ASN syntax: an optional leading `+`, then one or more decimal digits,
/// with a value that fits in 32 bits.
pub open spec fn spec_parse_asn(s: Seq<char>) -> Option<u32> {
    let digits = if s.len() > 0 && s[0] == '+' {
        s.subrange(1, s.len() as int)
    } else {
        s
    };
    if spec_all_digits(digits) && spec_digits_value(digits) <= u32::MAX {
        Some(spec_digits_value(digits) as u32)
    } else {
        None
    }
}

/// The value of an all-digit sequence is nonnegative.
proof fn lemma_digits_value_nonneg(s: Seq<char>)
    requires
        forall|i: int| 0 <= i < s.len() ==> spec_digit(s[i]),
    ensures
        spec_digits_value(s) >= 0,
    decreases s.len(),
{
    if s.len() > 0 {
        lemma_digits_value_nonneg(s.drop_last());
    }
}

/// Extending an all-digit sequence never shrinks its value, so a prefix that
/// is already too large for 32 bits dooms the whole sequence.
proof fn lemma_digits_value_prefix_le(s: Seq<char>, i: int)
    requires
        0 <= i <= s.len(),
        forall|j: int| 0 <= j < s.len() ==> spec_digit(s[j]),
    ensures
        spec_digits_value(s.subrange(0, i)) <= spec_digits_value(s),
    decreases s.len() - i,
{
    if i < s.len() {
        let t = s.subrange(0, i + 1);
        assert(t.drop_last() =~= s.subrange(0, i));
        lemma_digits_value_nonneg(s.subrange(0, i));
        assert(spec_digits_value(s.subrange(0, i)) <= spec_digits_value(t));
        lemma_digits_value_prefix_le(s, i + 1);
        assert(s.subrange(0, s.len() as int) =~= s);
    } else {
        assert(s.subrange(0, i) =~= s);
    }
}

/// Parses an ASN in the decimal syntax of Rust's `u32` parser: an optional
/// leading `+`, then one or more digits, rejecting values above `u32::MAX`.
pub fn parse_asn(s: &str) -> (r: Option<u32>)
    ensures
        r == spec_parse_asn(s@),
{
    let len = s.unicode_len();
    proof {
        assert('+' as u32 == 43);
        assert('0' as u32 == 48);
        assert('9' as u32 == 57);
    }
    let start: usize = if len > 0 && s.get_char(0) as u32 == 43 {
        1
    } else {
        0
    };
    let ghost digits = if s@.len() > 0 && s@[0] == '+' {
        s@.subrange(1, s@.len() as int)
    } else {
        s@
    };
    assert(digits =~= s@.subrange(start as int, s@.len() as int));
    if start == len {
        assert(!spec_all_digits(digits));
        return None;
    }
    let mut acc: u64 = 0;
    let mut i: usize = start;
    while i < len
        invariant
            start <= i <= len,
            len == s@.len(),
            start == if s@.len() > 0 && s@[0] == '+' {
                1int
            } else {
                0int
            },
            digits == if s@.len() > 0 && s@[0] == '+' {
                s@.subrange(1, s@.len() as int)
            } else {
                s@
            },
            digits =~= s@.subrange(start as int, s@.len() as int),
            forall|j: int| start <= j < i ==> spec_digit(s@[j]),
            acc == spec_digits_value(s@.subrange(start as int, i as int)),
            acc <= u32::MAX,
        decreases len - i,
    {
        let c = s.get_char(i);
        let cu: u32 = c as u32;
        if !(48 <= cu && cu <= 57) {
            assert(digits[i - start] == s@[i as int]);
            assert(!spec_digit(s@[i as int]));
            assert(!spec_all_digits(digits));
            return None;
        }
        let d: u64 = (cu - 48) as u64;
        assert(d == s@[i as int] as u32 - '0' as u32);
        acc = acc * 10 + d;
        i = i + 1;
        proof {
            let prev = s@.subrange(start as int, i - 1);
            let cur = s@.subrange(start as int, i as int);
            assert(cur.drop_last() =~= prev);
            assert(cur.last() == s@[i - 1]);
        }
        if acc > u32::MAX as u64 {
            proof {
                if spec_all_digits(digits) {
                    lemma_digits_value_prefix_le(digits, i - start);
                    assert(s@.subrange(start as int, i as int) =~= digits.subrange(0, i - start));
                }
            }
            return None;
        }
    }
    assert(digits =~= s@.subrange(start as int, i as int));
    assert(spec_all_digits(digits));
    Some(acc as u32)
}

// ---------------------------------------------------------------------------
// First-match-wins lookup over the ordered table.
// ---------------------------------------------------------------------------

/// The ASN resolved for an address: the ASN of the first entry, in table
/// order, whose range contains the address, or 0 when none does.
pub open spec fn spec_first_match(entries: Seq<IpEntry>, a: IpAddress) -> u32
    decreases entries.len(),
{
    if entries.len() == 0 {
        0
    } else if spec_cidr_contains(entries[0].cidr, a) {
        entries[0].asn
    } else {
        spec_first_match(entries.drop_first(), a)
    }
}

/// Every entry's range is well formed.
pub open spec fn spec_entries_wf(entries: Seq<IpEntry>) -> bool {
    forall|i: int| 0 <= i < entries.len() ==> spec_cidr_wf(#[trigger] entries[i].cidr)
}

/// Skipping entries whose ranges do not contain the address leaves the
/// resolved ASN unchanged.
proof fn lemma_first_match_skip(entries: Seq<IpEntry>, a: IpAddress, i: int)
    requires
        0 <= i <= entries.len(),
        forall|j: int| 0 <= j < i ==> !spec_cidr_contains(#[trigger] entries[j].cidr, a),
    ensures
        spec_first_match(entries, a) == spec_first_match(entries.skip(i), a),
    decreases i,
{
    if i > 0 {
        assert(entries.drop_first() =~= entries.skip(1));
        lemma_first_match_skip(entries.skip(1), a, i - 1);
        assert(entries.skip(1).skip(i - 1) =~= entries.skip(i));
    } else {
        assert(entries.skip(0) =~= entries);
    }
}

/// First-match-wins: when an entry's range contains the address and no
/// earlier entry's range does, the lookup resolves to that entry's ASN, so
/// later overlapping entries are never consulted.
pub proof fn lemma_first_match_wins(entries: Seq<IpEntry>, a: IpAddress, i: int)
    requires
        0 <= i < entries.len(),
        spec_cidr_contains(entries[i].cidr, a),
        forall|j: int| 0 <= j < i ==> !spec_cidr_contains(#[trigger] entries[j].cidr, a),
    ensures
        spec_first_match(entries, a) == entries[i].asn,
{
    lemma_first_match_skip(entries, a, i);
    assert(entries.skip(i)[0] == entries[i]);
}

/// Scans the table in order and returns the first matching entry's ASN,
/// or 0 when no entry matches.
fn scan_asn(entries: &Vec<IpEntry>, a: IpAddress) -> (r: u32)
    requires
        spec_entries_wf(entries@),
    ensures
        r == spec_first_match(entries@, a),
{
    let n = entries.len();
    let mut i: usize = 0;
    while i < n
        invariant
            0 <= i <= n,
            n == entries@.len(),
            spec_entries_wf(entries@),
            forall|j: int| 0 <= j < i ==> !spec_cidr_contains(#[trigger] entries@[j].cidr, a),
        decreases n - i,
    {
        if entries[i].cidr.contains(a) {
            proof {
                lemma_first_match_wins(entries@, a, i as int);
            }
            return entries[i].asn;
        }
        i = i + 1;
    }
    proof {
        lemma_first_match_skip(entries@, a, n as int);
    }
    0
}

// ---------------------------------------------------------------------------
// The bounded recency cache: lru::LruCache behind trusted items. Its contents
// are modelled as a map from cache keys to ASNs, its recency as the sequence
// of keys from most to least recently used, bounded by its capacity.
// ---------------------------------------------------------------------------

/// The cache key type: family tag and numeric address value.
pub type CacheKey = (bool, u128);

/// The concrete cache type: keys to resolved ASNs.
pub type AsnCache = lru::LruCache<CacheKey, u32, std::collections::hash_map::RandomState>;

#[verifier::external_type_specification]
#[verifier::external_body]
#[verifier::reject_recursive_types(K)]
#[verifier::reject_recursive_types(V)]
#[verifier::reject_recursive_types(S)]
pub struct ExLruCache<K, V, S>(lru::LruCache<K, V, S>);

/// The empty contents map.
pub open spec fn spec_no_contents() -> Map<CacheKey, u32> {
    Map::empty()
}

/// What the cache holds: each cached key with its value.
pub uninterp spec fn lru_contents(c: AsnCache) -> Map<CacheKey, u32>;

/// The cache's recency order: cached keys from most to least recently used.
pub uninterp spec fn lru_order(c: AsnCache) -> Seq<CacheKey>;

/// The capacity the cache was made with.
pub uninterp spec fn lru_cap(c: AsnCache) -> nat;

/// The cache's structure: the recency order lists each cached key exactly
/// once, and never exceeds the capacity.
pub open spec fn lru_wf(c: AsnCache) -> bool {
    &&& lru_order(c).no_duplicates()
    &&& lru_contents(c).dom() == lru_order(c).to_set()
    &&& lru_order(c).len() <= lru_cap(c)
}

/// A key moved to the most-recent position of a recency order.
pub open spec fn spec_move_front(order: Seq<CacheKey>, k: CacheKey) -> Seq<CacheKey> {
    seq![k] + order.remove_value(k)
}

/// How one classification changes the recency order: the touched key becomes
/// most recent; a fresh key in a full cache displaces the least recent one.
pub open spec fn spec_touch(order: Seq<CacheKey>, k: CacheKey, cap: nat) -> Seq<CacheKey> {
    if order.contains(k) {
        spec_move_front(order, k)
    } else if order.len() < cap {
        seq![k] + order
    } else {
        seq![k] + order.drop_last()
    }
}

/// Relies on lru::LruCache::with_hasher: a fresh cache is empty and holds
/// the given capacity.
#[verifier::external_body]
fn lru_new(cap: usize) -> (c: AsnCache)
    requires
        1 <= cap,
    ensures
        lru_cap(c) == cap as nat,
        lru_contents(c) == spec_no_contents(),
        lru_order(c) == Seq::<CacheKey>::empty(),
{
    lru::LruCache::with_hasher(
        std::num::NonZeroUsize::new(cap).unwrap(),
        std::collections::hash_map::RandomState::new(),
    )
}

/// Relies on lru::LruCache::get: a hit returns the cached value and moves the
/// key to the most-recent position; a miss changes nothing.
#[verifier::external_body]
fn lru_get(c: &mut AsnCache, k: CacheKey) -> (r: Option<u32>)
    ensures
        lru_cap(*final(c)) == lru_cap(*old(c)),
        lru_wf(*old(c)) ==> lru_wf(*final(c)),
        lru_contents(*final(c)) == lru_contents(*old(c)),
        r == (if lru_contents(*old(c)).dom().contains(k) {
            Some(lru_contents(*old(c))[k])
        } else {
            None::<u32>
        }),
        lru_order(*final(c)) == (if lru_contents(*old(c)).dom().contains(k) {
            spec_move_front(lru_order(*old(c)), k)
        } else {
            lru_order(*old(c))
        }),
{
    c.get(&k).copied()
}

/// Relies on lru::LruCache::put: the key is inserted at the most-recent
/// position; a fresh key in a full cache evicts the least recently used
/// entry, and nothing else is lost.
#[verifier::external_body]
fn lru_put(c: &mut AsnCache, k: CacheKey, v: u32)
    ensures
        lru_cap(*final(c)) == lru_cap(*old(c)),
        lru_wf(*old(c)) ==> lru_wf(*final(c)),
        lru_contents(*old(c)).dom().contains(k) ==> lru_contents(*final(c)) == lru_contents(
            *old(c),
        ).insert(k, v),
        lru_contents(*old(c)).dom().contains(k) ==> lru_order(*final(c)) == spec_move_front(
            lru_order(*old(c)),
            k,
        ),
        !lru_contents(*old(c)).dom().contains(k) && lru_order(*old(c)).len() < lru_cap(*old(c))
            ==> lru_contents(*final(c)) == lru_contents(*old(c)).insert(k, v),
        !lru_contents(*old(c)).dom().contains(k) && lru_order(*old(c)).len() < lru_cap(*old(c))
            ==> lru_order(*final(c)) == seq![k] + lru_order(*old(c)),
        !lru_contents(*old(c)).dom().contains(k) && lru_order(*old(c)).len() >= lru_cap(*old(c))
            && lru_order(*old(c)).len() > 0 ==> lru_contents(*final(c)) == lru_contents(
            *old(c),
        ).remove(lru_order(*old(c)).last()).insert(k, v),
        !lru_contents(*old(c)).dom().contains(k) && lru_order(*old(c)).len() >= lru_cap(*old(c))
            && lru_order(*old(c)).len() > 0 ==> lru_order(*final(c)) == seq![k] + lru_order(
            *old(c),
        ).drop_last(),
{
    c.put(k, v);
}

/// Relies on lru::LruCache::peek: returns the cached value without touching
/// the recency order.
#[verifier::external_body]
fn lru_peek(c: &AsnCache, k: CacheKey) -> (r: Option<u32>)
    ensures
        r == (if lru_contents(*c).dom().contains(k) {
            Some(lru_contents(*c)[k])
        } else {
            None::<u32>
        }),
{
    c.peek(&k).copied()
}

/// Relies on lru::LruCache::len: the number of cached entries.
#[verifier::external_body]
fn lru_len(c: &AsnCache) -> (r: usize)
    ensures
        r == lru_order(*c).len(),
{
    c.len()
}

// ---------------------------------------------------------------------------
// The classifier itself.
// ---------------------------------------------------------------------------

/// The fixed capacity of the recency cache.
pub const CACHE_CAPACITY: usize = 1000;

/// Every cached value agrees with a fresh scan of the table: caching never
/// changes an answer.
pub open spec fn spec_cache_coherent(entries: Seq<IpEntry>, contents: Map<CacheKey, u32>) -> bool {
    forall|a: IpAddress|
        contents.dom().contains(#[trigger] spec_addr_key(a)) ==> contents[spec_addr_key(a)]
            == spec_first_match(entries, a)
}

/// The reputation database: the immutable, ordered table and the bounded
/// recency cache of resolved ASNs.
#[derive(Debug)]
pub struct IpDatabase {
    entries: Vec<IpEntry>,
    asn_cache: AsnCache,
}

/// What the range parser accepts, and the parsed base and prefix: a
/// function of the text alone.
pub uninterp spec fn spec_parse_cidr(s: Seq<char>) -> Option<CidrBlock>;

/// Relies on `cidr_utils::cidr::IpCidr`'s `FromStr` (the `cidr` crate,
/// re-exported): parsing depends on the text alone, a parsed range's base is
/// its first address, and its prefix length fits its address family.
#[verifier::external_body]
fn parse_cidr(s: &str) -> (r: Option<CidrBlock>)
    ensures
        r == spec_parse_cidr(s@),
        r matches Some(c) ==> spec_cidr_wf(c),
{
    match s.parse::<cidr_utils::cidr::IpCidr>() {
        Ok(cidr_utils::cidr::IpCidr::V4(c)) => Some(
            CidrBlock::V4 { base: u32::from(c.first_address()), prefix: c.network_length() },
        ),
        Ok(cidr_utils::cidr::IpCidr::V6(c)) => Some(
            CidrBlock::V6 { base: u128::from(c.first_address()), prefix: c.network_length() },
        ),
        Err(_) => None,
    }
}

/// A row parses: its range and its ASN are both accepted.
pub open spec fn spec_row_ok(rec: CsvRecord) -> bool {
    spec_parse_cidr(rec.cidr@) is Some && spec_parse_asn(rec.asn@) is Some
}

/// The entry a well-formed row loads to, up to the provider label's text.
pub open spec fn spec_entry_matches(e: IpEntry, rec: CsvRecord) -> bool {
    &&& Some(e.cidr) == spec_parse_cidr(rec.cidr@)
    &&& Some(e.asn) == spec_parse_asn(rec.asn@)
    &&& e.provider@ == rec.provider@
}

/// The error a failing row raises: a bad range aborts with that range's
/// text, and only then is a bad ASN reported, with that ASN's text.
pub open spec fn spec_row_error(e: GeoIpError, rec: CsvRecord) -> bool {
    if spec_parse_cidr(rec.cidr@) is None {
        e matches GeoIpError::InvalidCidr(s) && s@ == rec.cidr@
    } else {
        e matches GeoIpError::InvalidAsn(s) && s@ == rec.asn@
    }
}

/// A load failure reports the first offending row.
pub open spec fn spec_load_error(rows: Seq<CsvRecord>, e: GeoIpError) -> bool {
    exists|i: int|
        0 <= i < rows.len() && !#[trigger] spec_row_ok(rows[i]) && (forall|j: int|
            0 <= j < i ==> spec_row_ok(#[trigger] rows[j])) && spec_row_error(e, rows[i])
}

impl IpDatabase {
    /// The loaded table, in row order.
    pub closed spec fn spec_entries(self) -> Seq<IpEntry> {
        self.entries@
    }

    /// The cache's contents.
    pub closed spec fn spec_cache(self) -> Map<CacheKey, u32> {
        lru_contents(self.asn_cache)
    }

    /// The cache's recency order, most recently used first.
    pub closed spec fn spec_cache_order(self) -> Seq<CacheKey> {
        lru_order(self.asn_cache)
    }

    /// Well-formedness: the cache has its fixed capacity and sound structure,
    /// every range in the table is well formed, and every cached ASN
    /// agrees with a fresh scan of the table.
    pub closed spec fn wf(self) -> bool {
        &&& lru_wf(self.asn_cache)
        &&& lru_cap(self.asn_cache) == CACHE_CAPACITY as nat
        &&& spec_entries_wf(self.entries@)
        &&& spec_cache_coherent(self.entries@, lru_contents(self.asn_cache))
    }

    /// The cache key of an address.
    fn addr_key(a: IpAddress) -> (k: CacheKey)
        ensures
            k == spec_addr_key(a),
    {
        match a {
            IpAddress::V4(v) => (true, v as u128),
            IpAddress::V6(v) => (false, v),
        }
    }

    /// Loads the reputation table from its rows. Parses each row's range and
    /// ASN; the first malformed field aborts the entire load with an error
    /// naming the offending value, so no partial table is ever accepted.
    pub fn load(records: Vec<CsvRecord>) -> (r: Result<IpDatabase, GeoIpError>)
        ensures
            (r is Ok) == (forall|i: int|
                0 <= i < records@.len() ==> spec_row_ok(#[trigger] records@[i])),
            r matches Ok(db) ==> {
                &&& db.wf()
                &&& db.spec_entries().len() == records@.len()
                &&& forall|i: int|
                    0 <= i < records@.len() ==> spec_entry_matches(
                        #[trigger] db.spec_entries()[i],
                        records@[i],
                    )
                &&& db.spec_cache() == Map::<CacheKey, u32>::empty()
                &&& db.spec_cache_order() == Seq::<CacheKey>::empty()
            },
            r matches Err(e) ==> spec_load_error(records@, e),
    {
        let mut entries: Vec<IpEntry> = Vec::new();
        let n = records.len();
        let mut idx: usize = 0;
        while idx < n
            invariant
                0 <= idx <= n,
                n == records@.len(),
                entries@.len() == idx,
                forall|j: int| 0 <= j < idx ==> spec_row_ok(#[trigger] records@[j]),
                forall|j: int|
                    0 <= j < idx ==> spec_entry_matches(#[trigger] entries@[j], records@[j]),
                spec_entries_wf(entries@),
            decreases n - idx,
        {
            let rec = &records[idx];
            match parse_cidr(rec.cidr.as_str()) {
                None => {
                    let e = GeoIpError::InvalidCidr(rec.cidr.clone());
                    proof {
                        assert(!spec_row_ok(records@[idx as int]));
                        assert(spec_row_error(e, records@[idx as int]));
                    }
                    return Err(e);
                },
                Some(cidr) => {
                    match parse_asn(rec.asn.as_str()) {
                        None => {
                            let e = GeoIpError::InvalidAsn(rec.asn.clone());
                            proof {
                                assert(!spec_row_ok(records@[idx as int]));
                                assert(spec_row_error(e, records@[idx as int]));
                            }
                            return Err(e);
                        },
                        Some(asn) => {
                            entries.push(IpEntry { cidr, asn, provider: rec.provider.clone() });
                        },
                    }
                },
            }
            idx = idx + 1;
        }
        let asn_cache = lru_new(CACHE_CAPACITY);
        let db = IpDatabase { entries, asn_cache };
        proof {
            assert(lru_order(db.asn_cache).to_set() =~= Set::<CacheKey>::empty());
            assert(lru_contents(db.asn_cache).dom() =~= Set::<CacheKey>::empty());
        }
        Ok(db)
    }

    /// Whether the address belongs to a known VPN-provider ASN. Consults the
    /// cache first; on a miss, scans the table in order, first match wins,
    /// and caches the resolved ASN (0 when nothing matches) under the exact
    /// address. The answer is a function of the table and the address alone
    /// — the cache can never change it — and the touched key always becomes
    /// the most recently used, displacing the least recently used entry when
    /// a fresh address meets a full cache. Lookup never fails: an unmatched
    /// address just yields `false`.
    pub fn is_vpn_ip(&mut self, ip: IpAddress) -> (r: bool)
        requires
            old(self).wf(),
        ensures
            final(self).wf(),
            final(self).spec_entries() == old(self).spec_entries(),
            r == (spec_first_match(old(self).spec_entries(), ip) != 0),
            final(self).spec_cache_order() == spec_touch(
                old(self).spec_cache_order(),
                spec_addr_key(ip),
                CACHE_CAPACITY as nat,
            ),
    {
        let key = Self::addr_key(ip);
        let cached = lru_get(&mut self.asn_cache, key);
        match cached {
            Some(asn) => {
                proof {
                    assert(lru_contents(self.asn_cache).dom().contains(spec_addr_key(ip)));
                    assert(lru_order(old(self).asn_cache).contains(key));
                }
                asn != 0
            },
            None => {
                let asn = scan_asn(&self.entries, ip);
                let ghost pre_cache = self.asn_cache;
                lru_put(&mut self.asn_cache, key, asn);
                proof {
                    assert(!lru_order(pre_cache).contains(key));
                    assert forall|a: IpAddress|
                        lru_contents(self.asn_cache).dom().contains(
                            #[trigger] spec_addr_key(a),
                        ) implies lru_contents(self.asn_cache)[spec_addr_key(a)]
                        == spec_first_match(self.entries@, a) by {
                        lemma_addr_key_injective(a, ip);
                        if spec_addr_key(a) != key {
                            assert(lru_contents(pre_cache).dom().contains(spec_addr_key(a)));
                        }
                    }
                }
                asn != 0
            },
        }
    }

    /// The ASN cached for an address, if any, without touching recency.
    pub fn cached_asn(&self, ip: IpAddress) -> (r: Option<u32>)
        ensures
            r == (if self.spec_cache().dom().contains(spec_addr_key(ip)) {
                Some(self.spec_cache()[spec_addr_key(ip)])
            } else {
                None::<u32>
            }),
    {
        lru_peek(&self.asn_cache, Self::addr_key(ip))
    }

    /// How many addresses are cached.
    pub fn cache_len(&self) -> (r: usize)
        ensures
            r == self.spec_cache_order().len(),
    {
        lru_len(&self.asn_cache)
    }
}

/// The recency order after a whole sequence of classifications, applied
/// front to back.
pub open spec fn spec_touch_all(order: Seq<CacheKey>, keys: Seq<CacheKey>, cap: nat) -> Seq<
    CacheKey,
>
    decreases keys.len(),
{
    if keys.len() == 0 {
        order
    } else {
        spec_touch_all(spec_touch(order, keys[0], cap), keys.drop_first(), cap)
    }
}

/// No key of `keys` is already cached.
pub open spec fn spec_all_fresh(order: Seq<CacheKey>, keys: Seq<CacheKey>) -> bool {
    forall|i: int| 0 <= i < keys.len() ==> !order.contains(#[trigger] keys[i])
}

/// The exact recency order after touching distinct, uncached keys in turn:
/// the keys most recent first, then what was cached before, cut to the
/// capacity.
proof fn lemma_touch_all_formula(order: Seq<CacheKey>, keys: Seq<CacheKey>, cap: nat)
    requires
        cap >= 1,
        order.len() <= cap,
        keys.no_duplicates(),
        spec_all_fresh(order, keys),
    ensures
        spec_touch_all(order, keys, cap) =~= (keys.reverse() + order).take(
            if keys.len() + order.len() < cap {
                (keys.len() + order.len()) as int
            } else {
                cap as int
            },
        ),
    decreases keys.len(),
{
    let n = keys.len() as int;
    let len0 = order.len() as int;
    if n == 0 {
        assert(keys.reverse() =~= Seq::<CacheKey>::empty());
        assert((keys.reverse() + order) =~= order);
    } else {
        let k = keys[0];
        let rest = keys.drop_first();
        assert(!order.contains(k));
        let order1 = spec_touch(order, k, cap);
        assert(rest.no_duplicates()) by {
            assert(forall|i: int| 0 <= i < rest.len() ==> rest[i] == keys[i + 1]);
        }
        assert(spec_all_fresh(order1, rest)) by {
            assert forall|i: int| 0 <= i < rest.len() implies !order1.contains(
                #[trigger] rest[i],
            ) by {
                assert(rest[i] == keys[i + 1]);
                assert(keys[i + 1] != k);
                assert(!order.contains(keys[i + 1]));
                if order1.contains(keys[i + 1]) {
                    let j = choose|j: int| 0 <= j < order1.len() && order1[j] == keys[i + 1];
                    assert(j >= 1);
                    if len0 < cap {
                        assert(order1[j] == order[j - 1]);
                        assert(order.contains(keys[i + 1]));
                    } else {
                        assert(order1[j] == order.drop_last()[j - 1]);
                        assert(order.drop_last()[j - 1] == order[j - 1]);
                        assert(order.contains(keys[i + 1]));
                    }
                }
            }
        }
        assert(order1.len() <= cap);
        lemma_touch_all_formula(order1, rest, cap);
        assert(spec_touch_all(order, keys, cap) == spec_touch_all(order1, rest, cap));
        let m = if n + len0 < cap {
            n + len0
        } else {
            cap as int
        };
        assert(keys.reverse() =~= rest.reverse() + seq![k]) by {
            assert(forall|i: int|
                0 <= i < n - 1 ==> rest.reverse()[i] == keys[n - 1 - i]);
        }
        if len0 < cap {
            assert(order1 == seq![k] + order);
            let m1 = if (n - 1) + (len0 + 1) < cap {
                (n - 1) + (len0 + 1)
            } else {
                cap as int
            };
            assert(m1 == m);
            assert((rest.reverse() + order1) =~= (keys.reverse() + order));
        } else {
            assert(len0 == cap);
            assert(order1 == seq![k] + order.drop_last());
            let m1 = if (n - 1) + cap < cap {
                (n - 1) + cap
            } else {
                cap as int
            };
            assert(m1 == cap as int);
            assert(m == cap as int);
            assert forall|i: int| 0 <= i < cap implies (rest.reverse() + order1).take(cap as int)[i]
                == (keys.reverse() + order).take(cap as int)[i] by {
                if i < n {
                    assert((rest.reverse() + order1)[i] == keys.reverse()[i]);
                } else {
                    assert((rest.reverse() + order1)[i] == order.drop_last()[i - n]);
                    assert((keys.reverse() + order)[i] == order[i - n]);
                }
            }
            assert((rest.reverse() + order1).take(cap as int) =~= (keys.reverse() + order).take(
                cap as int,
            ));
        }
    }
}

/// Only the most recently used entries survive: after classifying at least
/// capacity-many distinct addresses none of which was cached before, the
/// cache's recency order is exactly the most recent capacity-many of them,
/// most recent first — everything older, including all earlier entries, has
/// been evicted.
pub proof fn lemma_cache_keeps_most_recent(order: Seq<CacheKey>, keys: Seq<CacheKey>, cap: nat)
    requires
        cap >= 1,
        order.len() <= cap,
        keys.no_duplicates(),
        spec_all_fresh(order, keys),
        keys.len() >= cap,
    ensures
        spec_touch_all(order, keys, cap) =~= keys.skip(keys.len() - cap).reverse(),
{
    let n = keys.len() as int;
    lemma_touch_all_formula(order, keys, cap);
    assert forall|i: int| 0 <= i < cap implies (keys.reverse() + order).take(cap as int)[i]
        == keys.skip(n - cap).reverse()[i] by {
        assert((keys.reverse() + order)[i] == keys[n - 1 - i]);
        assert(keys.skip(n - cap).reverse()[i] == keys.skip(n - cap)[cap - 1 - i]);
        assert(keys.skip(n - cap)[cap - 1 - i] == keys[n - 1 - i]);
    }
}

/// Classification is deterministic and independent of the cache: two
/// databases loaded with the same table resolve every address to the same
/// ASN, whatever their caches hold, so a repeated query's answer never
/// depends on hits or misses.
pub proof fn lemma_classification_cache_independent(
    db1: IpDatabase,
    db2: IpDatabase,
    a: IpAddress,
)
    requires
        db1.spec_entries() == db2.spec_entries(),
    ensures
        spec_first_match(db1.spec_entries(), a) == spec_first_match(db2.spec_entries(), a),
{
}

} // verus!
