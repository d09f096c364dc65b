//! The integrity envelope around a collected report: a SHA-256 checksum of
//! the report's canonical serialization, the collection time and the
//! collector's version, with the staleness policy derived from the time.
use sha2::Digest;
use vstd::prelude::*;
use vstd::utf8::encode_utf8;

verus! {

/// The version stamped on every envelope this library seals.
pub const COLLECTOR_VERSION: &'static str = "0.1.0";

/// Bound on the seconds of a timestamp, past the range of calendar dates
/// that the clock can represent (about 262,000 years either side of 1970).
pub const TIMESTAMP_SECS_LIMIT: i64 = 10_000_000_000_000;

/// Nanoseconds in one second.
pub const NANOS_PER_SEC: u32 = 1_000_000_000;

/// A point in time: whole seconds since the Unix epoch, and nanoseconds
/// past that second (up to two seconds' worth during a leap second).
#[derive(Clone, Copy, Debug, PartialEq, Eq, Structural)]
pub struct Timestamp {
    pub secs: i64,
    pub nanos: u32,
}

impl Timestamp {
    pub open spec fn wf(&self) -> bool {
        &&& -TIMESTAMP_SECS_LIMIT <= self.secs <= TIMESTAMP_SECS_LIMIT
        &&& self.nanos < 2 * NANOS_PER_SEC
    }

    /// Whether the timestamp lies in the representable range.
    pub fn is_valid(&self) -> (r: bool)
        ensures
            r == self.wf(),
    {
        -TIMESTAMP_SECS_LIMIT <= self.secs && self.secs <= TIMESTAMP_SECS_LIMIT && self.nanos < 2
            * NANOS_PER_SEC
    }

    pub open spec fn total_nanos(&self) -> int {
        self.secs * NANOS_PER_SEC + self.nanos
    }
}

/// Whole seconds elapsed from `from` to `to`, truncated toward zero; negative
/// when `to` comes first (clock skew is passed through, not clamped).
pub open spec fn seconds_between(from: Timestamp, to: Timestamp) -> int {
    let d = to.total_nanos() - from.total_nanos();
    if d >= 0 {
        d / (NANOS_PER_SEC as int)
    } else {
        -((-d) / (NANOS_PER_SEC as int))
    }
}

/// Seconds elapsed from `from` to `to`, as `seconds_between` states it.
pub fn elapsed_secs(from: Timestamp, to: Timestamp) -> (r: i64)
    requires
        from.wf(),
        to.wf(),
    ensures
        r == seconds_between(from, to),
{
    let ds: i128 = to.secs as i128 - from.secs as i128;
    let dn: i128 = to.nanos as i128 - from.nanos as i128;
    assert(-20_000_000_000_000 <= ds <= 20_000_000_000_000);
    assert(-20_000_000_000_000_000_000_000 <= ds * 1_000_000_000 <= 20_000_000_000_000_000_000_000)
        by (nonlinear_arith)
        requires
            -20_000_000_000_000 <= ds <= 20_000_000_000_000,
    ;
    let d: i128 = ds * 1_000_000_000 + dn;
    assert(d == to.total_nanos() - from.total_nanos());
    let q: i128 = if d >= 0 {
        d / 1_000_000_000
    } else {
        -((-d) / 1_000_000_000)
    };
    assert(-30_000_000_000_000 <= q <= 30_000_000_000_000);
    q as i64
}

/// The 32-byte SHA-256 digest of `data`.
pub uninterp spec fn sha256_of(data: Seq<u8>) -> Seq<u8>;

/// Relies on sha2::Sha256::digest: the SHA-256 digest of the input, whose
/// output size is 32 bytes.
#[verifier::external_body]
fn sha256_digest(data: &[u8]) -> (r: Vec<u8>)
    ensures
        r@ == sha256_of(data@),
        r@.len() == 32,
{
    sha2::Sha256::digest(data).to_vec()
}

/// Relies on chrono's conversion `DateTime<Utc>::from(SystemTime)` of the
/// system clock's reading: seconds since the epoch and nanoseconds past the
/// second, within chrono's representable range (a reading before 1970
/// gives negative seconds rather than a panic; the nanoseconds exceed a
/// second only during a leap second).
#[verifier::external_body]
pub(crate) fn clock_now() -> (t: Timestamp)
    ensures
        t.wf(),
{
    let now = chrono::DateTime::<chrono::Utc>::from(std::time::SystemTime::now());
    Timestamp { secs: now.timestamp(), nanos: now.timestamp_subsec_nanos() }
}

/// The lowercase hexadecimal digits.
pub open spec fn hex_digits() -> Seq<char> {
    seq!['0', '1', '2', '3', '4', '5', '6', '7', '8', '9', 'a', 'b', 'c', 'd', 'e', 'f']
}

/// Two lowercase hexadecimal digits per byte, high nibble first.
pub open spec fn hex_of(b: Seq<u8>) -> Seq<char>
    decreases b.len(),
{
    if b.len() == 0 {
        Seq::empty()
    } else {
        let last = b[b.len() - 1];
        hex_of(b.subrange(0, b.len() - 1)) + seq![
            hex_digits()[(last / 16) as int],
            hex_digits()[(last % 16) as int],
        ]
    }
}

proof fn lemma_hex_len(b: Seq<u8>)
    ensures
        hex_of(b).len() == 2 * b.len(),
    decreases b.len(),
{
    if b.len() > 0 {
        lemma_hex_len(b.subrange(0, b.len() - 1));
    }
}

/// The tag that names the checksum's algorithm.
pub open spec fn checksum_prefix() -> Seq<char> {
    seq!['s', 'h', 'a', '2', '5', '6', ':']
}

/// The checksum of a report's serialized text: the algorithm's tag, then
/// the SHA-256 digest of its UTF-8 bytes in lowercase hexadecimal.
pub open spec fn checksum_of(report: Seq<char>) -> Seq<char> {
    checksum_prefix() + hex_of(sha256_of(encode_utf8(report)))
}

/// Encodes `bytes` as lowercase hexadecimal.
pub fn hex_encode(bytes: &Vec<u8>) -> (r: String)
    ensures
        r@ == hex_of(bytes@),
        r@.len() == 2 * bytes@.len(),
{
    proof {
        lemma_hex_len(bytes@);
    }
    let digits = "0123456789abcdef";
    proof {
        reveal_strlit("0123456789abcdef");
        assert(digits@ =~= hex_digits());
    }
    let mut out = String::new();
    let mut i: usize = 0;
    assert(bytes@.subrange(0, 0) =~= Seq::<u8>::empty());
    while i < bytes.len()
        invariant
            i <= bytes.len(),
            digits@ == hex_digits(),
            out@ == hex_of(bytes@.subrange(0, i as int)),
        decreases bytes.len() - i,
    {
        let b = bytes[i];
        let hi = (b / 16) as usize;
        let lo = (b % 16) as usize;
        out.append(digits.substring_char(hi, hi + 1));
        out.append(digits.substring_char(lo, lo + 1));
        assert(bytes@.subrange(0, i + 1).subrange(0, i as int) =~= bytes@.subrange(0, i as int));
        assert(out@ =~= hex_of(bytes@.subrange(0, i + 1)));
        i = i + 1;
    }
    assert(bytes@.subrange(0, bytes.len() as int) =~= bytes@);
    out
}

/// The checksum of the serialized report `report`.
pub fn report_checksum(report: &String) -> (r: String)
    ensures
        r@ == checksum_of(report@),
        r@.len() == 71,
{
    let digest = sha256_digest(report.as_str().as_bytes());
    let hex = hex_encode(&digest);
    let mut out = String::from_str("sha256:");
    proof {
        reveal_strlit("sha256:");
        assert(out@ =~= checksum_prefix());
    }
    out.append(hex.as_str());
    out
}

/// What an envelope holds, as values.
pub ghost struct EnvelopeModel {
    pub checksum: Seq<char>,
    pub collected_at: Timestamp,
    pub collector_version: Seq<char>,
    pub report: Seq<char>,
}

/// A report wrapped with integrity metadata. `report` is the report's
/// canonical serialized text, over which `checksum` is computed.
#[derive(Clone, Debug, PartialEq, Eq)]
pub struct StoredReport {
    pub checksum: String,
    pub collected_at: Timestamp,
    pub collector_version: String,
    pub report: String,
}

impl View for StoredReport {
    type V = EnvelopeModel;

    open spec fn view(&self) -> EnvelopeModel {
        EnvelopeModel {
            checksum: self.checksum@,
            collected_at: self.collected_at,
            collector_version: self.collector_version@,
            report: self.report@,
        }
    }
}

/// Whether the checksum recorded in `e` is the checksum of its report.
pub open spec fn sealed(e: EnvelopeModel) -> bool {
    e.checksum == checksum_of(e.report)
}

/// An envelope wraps a report as `seal` and `new` do: the report's own
/// checksum, any time, this collector's version.
pub open spec fn wrapped(report: Seq<char>, collected_at: Timestamp) -> EnvelopeModel {
    EnvelopeModel {
        checksum: checksum_of(report),
        collected_at,
        collector_version: COLLECTOR_VERSION@,
        report,
    }
}

/// Every wrapped report verifies: `verify` returns true on whatever `seal`
/// or `new` built, whatever the report and the time.
pub proof fn lemma_wrapped_report_verifies(report: Seq<char>, collected_at: Timestamp)
    ensures
        sealed(wrapped(report, collected_at)),
{
}

/// Staleness is exactly an age past the limit: at an age equal to the limit
/// the report is fresh, one second more and it is stale.
pub proof fn lemma_stale_iff_older(collected_at: Timestamp, now: Timestamp, max_age_secs: u64)
    ensures
        seconds_between(collected_at, now) == max_age_secs ==> !(seconds_between(collected_at, now)
            > max_age_secs),
        seconds_between(collected_at, now) == max_age_secs + 1 ==> seconds_between(
            collected_at,
            now,
        ) > max_age_secs,
{
}

impl StoredReport {
    /// Wraps `report`, stamped with the collection time `collected_at`.
    pub fn seal(report: String, collected_at: Timestamp) -> (r: Self)
        ensures
            r@.report == report@,
            r@.collected_at == collected_at,
            r@.collector_version == COLLECTOR_VERSION@,
            r@ == wrapped(report@, collected_at),
            sealed(r@),
    {
        let checksum = report_checksum(&report);
        StoredReport {
            checksum,
            collected_at,
            collector_version: String::from_str(COLLECTOR_VERSION),
            report,
        }
    }

    /// Wraps `report`, stamped with the current time.
    pub fn new(report: String) -> (r: Self)
        ensures
            r@.report == report@,
            r@.collected_at.wf(),
            r@.collector_version == COLLECTOR_VERSION@,
            sealed(r@),
    {
        Self::seal(report, clock_now())
    }

    /// Recomputes the checksum of the report and compares it with the one
    /// recorded.
    pub fn verify(&self) -> (r: bool)
        ensures
            r == sealed(self@),
    {
        let expected = report_checksum(&self.report);
        self.checksum == expected
    }

    /// Seconds from collection to `now`.
    pub fn age_secs_at(&self, now: Timestamp) -> (r: i64)
        requires
            self.collected_at.wf(),
            now.wf(),
        ensures
            r == seconds_between(self.collected_at, now),
    {
        elapsed_secs(self.collected_at, now)
    }

    /// Whether, at `now`, the report is older than `max_age_secs`; an age
    /// of exactly `max_age_secs` is not stale.
    pub fn is_stale_at(&self, now: Timestamp, max_age_secs: u64) -> (r: bool)
        requires
            self.collected_at.wf(),
            now.wf(),
        ensures
            r == (seconds_between(self.collected_at, now) > max_age_secs),
    {
        let age = self.age_secs_at(now);
        age as i128 > max_age_secs as i128
    }

    /// Seconds from collection to the current time.
    pub fn age_secs(&self) -> (r: i64)
        requires
            self.collected_at.wf(),
        ensures
            exists|now: Timestamp| now.wf() && r == seconds_between(self.collected_at, now),
    {
        let now = clock_now();
        self.age_secs_at(now)
    }

    /// Whether the report is older than `max_age_secs` at the current time.
    pub fn is_stale(&self, max_age_secs: u64) -> (r: bool)
        requires
            self.collected_at.wf(),
        ensures
            exists|now: Timestamp|
                now.wf() && r == (seconds_between(self.collected_at, now) > max_age_secs),
    {
        let now = clock_now();
        self.is_stale_at(now, max_age_secs)
    }

    /// A copy of this envelope.
    pub fn duplicate(&self) -> (r: Self)
        ensures
            r@ == self@,
    {
        StoredReport {
            checksum: self.checksum.clone(),
            collected_at: self.collected_at,
            collector_version: self.collector_version.clone(),
            report: self.report.clone(),
        }
    }
}

} // verus!
