//! The historical view: time ranges, the thirty-bucket histogram of uptime events,
//! and the stable identifier under which an endpoint's events are stored.

use vstd::prelude::*;
use vstd::arithmetic::power2::pow2;

use crate::checker::{error_kind_text, CheckResult};
use crate::config::opt_view;
use crate::text::str_eq;

verus! {

/// Time range offered by the historical view.
#[derive(Debug, Clone, Copy, PartialEq, Eq, Structural)]
pub enum TimeRange {
    Minutes30,
    Hour1,
    Hours3,
    Hours8,
    Hours24,
    Days7,
    Days30,
}

impl Default for TimeRange {
    fn default() -> (r: Self)
        ensures
            r == TimeRange::Hour1,
    {
        TimeRange::Hour1
    }
}

/// The short text that names a range.
pub open spec fn range_text(r: TimeRange) -> Seq<char> {
    match r {
        TimeRange::Minutes30 => "30m"@,
        TimeRange::Hour1 => "1h"@,
        TimeRange::Hours3 => "3h"@,
        TimeRange::Hours8 => "8h"@,
        TimeRange::Hours24 => "24h"@,
        TimeRange::Days7 => "7d"@,
        TimeRange::Days30 => "30d"@,
    }
}

/// The range a text names; any unknown text selects one hour.
pub open spec fn range_of_text(s: Seq<char>) -> TimeRange {
    if s == "30m"@ {
        TimeRange::Minutes30
    } else if s == "3h"@ {
        TimeRange::Hours3
    } else if s == "8h"@ {
        TimeRange::Hours8
    } else if s == "24h"@ {
        TimeRange::Hours24
    } else if s == "7d"@ {
        TimeRange::Days7
    } else if s == "30d"@ {
        TimeRange::Days30
    } else {
        TimeRange::Hour1
    }
}

/// The human-readable label of a range.
pub open spec fn range_label(r: TimeRange) -> Seq<char> {
    match r {
        TimeRange::Minutes30 => "30 minutes"@,
        TimeRange::Hour1 => "1 hour"@,
        TimeRange::Hours3 => "3 hours"@,
        TimeRange::Hours8 => "8 hours"@,
        TimeRange::Hours24 => "24 hours"@,
        TimeRange::Days7 => "7 days"@,
        TimeRange::Days30 => "30 days"@,
    }
}

/// The length of a range in seconds.
pub open spec fn range_seconds(r: TimeRange) -> nat {
    match r {
        TimeRange::Minutes30 => 30 * 60,
        TimeRange::Hour1 => 3600,
        TimeRange::Hours3 => 3 * 3600,
        TimeRange::Hours8 => 8 * 3600,
        TimeRange::Hours24 => 24 * 3600,
        TimeRange::Days7 => 7 * 86400,
        TimeRange::Days30 => 30 * 86400,
    }
}

impl TimeRange {
    /// Parses the short text of a range; any other text gives one hour.
    pub fn from_str(s: &str) -> (r: Self)
        ensures
            r == range_of_text(s@),
    {
        if str_eq(s, "30m") {
            TimeRange::Minutes30
        } else if str_eq(s, "3h") {
            TimeRange::Hours3
        } else if str_eq(s, "8h") {
            TimeRange::Hours8
        } else if str_eq(s, "24h") {
            TimeRange::Hours24
        } else if str_eq(s, "7d") {
            TimeRange::Days7
        } else if str_eq(s, "30d") {
            TimeRange::Days30
        } else {
            TimeRange::Hour1
        }
    }

    pub fn as_str(self) -> (r: &'static str)
        ensures
            r@ == range_text(self),
    {
        match self {
            TimeRange::Minutes30 => "30m",
            TimeRange::Hour1 => "1h",
            TimeRange::Hours3 => "3h",
            TimeRange::Hours8 => "8h",
            TimeRange::Hours24 => "24h",
            TimeRange::Days7 => "7d",
            TimeRange::Days30 => "30d",
        }
    }

    pub fn label(self) -> (r: &'static str)
        ensures
            r@ == range_label(self),
    {
        match self {
            TimeRange::Minutes30 => "30 minutes",
            TimeRange::Hour1 => "1 hour",
            TimeRange::Hours3 => "3 hours",
            TimeRange::Hours8 => "8 hours",
            TimeRange::Hours24 => "24 hours",
            TimeRange::Days7 => "7 days",
            TimeRange::Days30 => "30 days",
        }
    }

    /// The length of the range in seconds.
    pub fn as_seconds(self) -> (r: i64)
        ensures
            r == range_seconds(self),
    {
        match self {
            TimeRange::Minutes30 => 30 * 60,
            TimeRange::Hour1 => 3600,
            TimeRange::Hours3 => 3 * 3600,
            TimeRange::Hours8 => 8 * 3600,
            TimeRange::Hours24 => 24 * 3600,
            TimeRange::Days7 => 7 * 86400,
            TimeRange::Days30 => 30 * 86400,
        }
    }

    /// Every range, shortest first.
    pub fn all() -> (r: Vec<TimeRange>)
        ensures
            r@ == seq![
                TimeRange::Minutes30,
                TimeRange::Hour1,
                TimeRange::Hours3,
                TimeRange::Hours8,
                TimeRange::Hours24,
                TimeRange::Days7,
                TimeRange::Days30,
            ],
    {
        vec![
            TimeRange::Minutes30,
            TimeRange::Hour1,
            TimeRange::Hours3,
            TimeRange::Hours8,
            TimeRange::Hours24,
            TimeRange::Days7,
            TimeRange::Days30,
        ]
    }
}

/// Reading a range's short text back gives the same range.
pub proof fn lemma_range_text_round_trip(r: TimeRange)
    ensures
        range_of_text(range_text(r)) == r,
{
    reveal_strlit("30m");
    reveal_strlit("1h");
    reveal_strlit("3h");
    reveal_strlit("8h");
    reveal_strlit("24h");
    reveal_strlit("7d");
    reveal_strlit("30d");
    let t = range_text(r);
    assert("30m"@[0] == '3' && "30m"@[1] == '0' && "30m"@[2] == 'm');
    assert("24h"@[0] == '2' && "24h"@[1] == '4' && "24h"@[2] == 'h');
    assert("30d"@[0] == '3' && "30d"@[1] == '0' && "30d"@[2] == 'd');
    assert("1h"@[0] == '1' && "3h"@[0] == '3' && "8h"@[0] == '8' && "7d"@[0] == '7');
    assert("1h"@[1] == 'h' && "3h"@[1] == 'h' && "8h"@[1] == 'h' && "7d"@[1] == 'd');
    if t == "30m"@ || t == "24h"@ || t == "30d"@ || t == "3h"@ || t == "8h"@ || t == "7d"@ {
        assert(t[0] == range_text(r)[0]);
    }
}


/// Status of one time bucket of the historical view.
#[derive(Debug, Clone, Copy, PartialEq, Eq, Structural)]
pub enum BucketStatus {
    /// Every check in the bucket succeeded.
    Green,
    /// Some checks succeeded and some failed.
    Yellow,
    /// Every check in the bucket failed.
    Red,
    /// The bucket holds no check.
    Gray,
}

pub open spec fn css_class_text(b: BucketStatus) -> Seq<char> {
    match b {
        BucketStatus::Green => "bg-green-500"@,
        BucketStatus::Yellow => "bg-yellow-500"@,
        BucketStatus::Red => "bg-red-500"@,
        BucketStatus::Gray => "bg-gray-300"@,
    }
}

impl BucketStatus {
    pub fn css_class(self) -> (r: &'static str)
        ensures
            r@ == css_class_text(self),
    {
        match self {
            BucketStatus::Green => "bg-green-500",
            BucketStatus::Yellow => "bg-yellow-500",
            BucketStatus::Red => "bg-red-500",
            BucketStatus::Gray => "bg-gray-300",
        }
    }
}

/// One stored check: its time, in microseconds since the Unix epoch, and whether it succeeded.
#[derive(Debug, Clone, Copy, PartialEq, Eq, Structural)]
pub struct UptimeEvent {
    pub ts: i64,
    pub success: bool,
}

/// Number of buckets in the historical view.
pub const NUM_BUCKETS: usize = 30;

/// The classification of a bucket holding `total` checks of which `ok` succeeded.
pub open spec fn bucket_status_spec(total: nat, ok: nat) -> BucketStatus {
    if total == 0 {
        BucketStatus::Gray
    } else if ok == total {
        BucketStatus::Green
    } else if ok == 0 {
        BucketStatus::Red
    } else {
        BucketStatus::Yellow
    }
}

/// Classifies a bucket by its number of checks and of successful checks.
pub fn bucket_status(total: usize, ok: usize) -> (r: BucketStatus)
    requires
        ok <= total,
    ensures
        r == bucket_status_spec(total as nat, ok as nat),
        r == BucketStatus::Gray <==> total == 0,
        r == BucketStatus::Green <==> 0 < total && ok == total,
        r == BucketStatus::Red <==> 0 == ok && ok < total,
        r == BucketStatus::Yellow <==> 0 < ok && ok < total,
{
    if total == 0 {
        BucketStatus::Gray
    } else if ok == total {
        BucketStatus::Green
    } else if ok == 0 {
        BucketStatus::Red
    } else {
        BucketStatus::Yellow
    }
}

pub open spec fn in_window(e: UptimeEvent, lo: int, hi: int) -> bool {
    lo <= e.ts && e.ts < hi
}

/// Number of events with a time in `[lo, hi)`.
pub open spec fn events_in(ev: Seq<UptimeEvent>, lo: int, hi: int) -> nat
    decreases ev.len(),
{
    if ev.len() == 0 {
        0
    } else {
        events_in(ev.drop_last(), lo, hi) + if in_window(ev.last(), lo, hi) {
            1nat
        } else {
            0nat
        }
    }
}

/// Number of successful events with a time in `[lo, hi)`.
pub open spec fn successes_in(ev: Seq<UptimeEvent>, lo: int, hi: int) -> nat
    decreases ev.len(),
{
    if ev.len() == 0 {
        0
    } else {
        successes_in(ev.drop_last(), lo, hi) + if in_window(ev.last(), lo, hi)
            && ev.last().success {
            1nat
        } else {
            0nat
        }
    }
}

pub proof fn lemma_successes_le_events(ev: Seq<UptimeEvent>, lo: int, hi: int)
    ensures
        successes_in(ev, lo, hi) <= events_in(ev, lo, hi),
    decreases ev.len(),
{
    if ev.len() > 0 {
        lemma_successes_le_events(ev.drop_last(), lo, hi);
    }
}

/// Length of one bucket of a range, in microseconds.
pub open spec fn bucket_micros(r: TimeRange) -> int {
    (range_seconds(r) * 1_000_000 / 30) as int
}

/// Start of bucket `i` (oldest first) of the range ending at `now`, in microseconds.
pub open spec fn bucket_start(r: TimeRange, now: int, i: int) -> int {
    now - range_seconds(r) * 1_000_000 + i * bucket_micros(r)
}

/// Status of bucket `i` of the range ending at `now`.
pub open spec fn bucket_at(ev: Seq<UptimeEvent>, r: TimeRange, now: int, i: int) -> BucketStatus {
    let lo = bucket_start(r, now, i);
    let hi = lo + bucket_micros(r);
    bucket_status_spec(events_in(ev, lo, hi), successes_in(ev, lo, hi))
}

/// The thirty bucket statuses, oldest first, of the range ending at `now`.
pub open spec fn buckets_spec(ev: Seq<UptimeEvent>, r: TimeRange, now: int) -> Seq<BucketStatus> {
    Seq::new(30, |i: int| bucket_at(ev, r, now, i))
}

/// Counts the events in `[lo, hi)` and the successful ones among them.
fn count_window(events: &Vec<UptimeEvent>, lo: i128, hi: i128) -> (r: (usize, usize))
    ensures
        r.0 == events_in(events@, lo as int, hi as int),
        r.1 == successes_in(events@, lo as int, hi as int),
{
    let mut total: usize = 0;
    let mut ok: usize = 0;
    let mut i: usize = 0;
    while i < events.len()
        invariant
            i <= events@.len(),
            total == events_in(events@.subrange(0, i as int), lo as int, hi as int),
            ok == successes_in(events@.subrange(0, i as int), lo as int, hi as int),
            total <= i,
            ok <= total,
        decreases events@.len() - i,
    {
        let e = events[i];
        let ghost prefix = events@.subrange(0, i + 1);
        assert(prefix.drop_last() =~= events@.subrange(0, i as int));
        if lo <= e.ts as i128 && (e.ts as i128) < hi {
            total = total + 1;
            if e.success {
                ok = ok + 1;
            }
        }
        i = i + 1;
    }
    assert(events@.subrange(0, i as int) =~= events@);
    (total, ok)
}

/// The bucket statuses of `events` over `range`, taking `now` (microseconds since the
/// Unix epoch) as the end of the range.
pub fn bucket_statuses_at(events: &Vec<UptimeEvent>, range: TimeRange, now: i64) -> (r: Vec<
    BucketStatus,
>)
    ensures
        r@ == buckets_spec(events@, range, now as int),
        r@.len() == NUM_BUCKETS,
{
    let total_micros: i128 = range.as_seconds() as i128 * 1_000_000;
    let delta: i128 = total_micros / 30;
    let mut out: Vec<BucketStatus> = Vec::new();
    let mut i: usize = 0;
    while i < NUM_BUCKETS
        invariant
            i <= NUM_BUCKETS,
            total_micros == range_seconds(range) * 1_000_000,
            delta == bucket_micros(range),
            0 < delta <= 86_400_000_000,
            out@.len() == i,
            forall|k: int| 0 <= k < i ==> out@[k] == bucket_at(events@, range, now as int, k),
        decreases NUM_BUCKETS - i,
    {
        assert(0 <= i * delta <= 30 * 86_400_000_000) by (nonlinear_arith)
            requires
                0 <= i < 30,
                0 < delta <= 86_400_000_000,
        ;
        let lo: i128 = now as i128 - total_micros + i as i128 * delta;
        let hi: i128 = lo + delta;
        let (k, s) = count_window(events, lo, hi);
        proof {
            lemma_successes_le_events(events@, lo as int, hi as int);
        }
        out.push(bucket_status(k, s));
        i = i + 1;
    }
    assert(out@ =~= buckets_spec(events@, range, now as int));
    out
}

/// Relies on std's `SystemTime::now`, chrono's `From<SystemTime> for DateTime<Utc>` (which
/// accepts readings before the Unix epoch) and `DateTime::timestamp_micros`: the current time in
/// microseconds since the Unix epoch. Nothing is known of its value.
#[verifier::external_body]
fn now_micros() -> i64 {
    chrono::DateTime::<chrono::Utc>::from(std::time::SystemTime::now()).timestamp_micros()
}

/// The bucket statuses of `events` over `range`, ending at the current time.
pub fn compute_bucket_statuses(events: &Vec<UptimeEvent>, range: TimeRange) -> (r: Vec<
    BucketStatus,
>)
    ensures
        r@.len() == NUM_BUCKETS,
        exists|now: i64| r@ == buckets_spec(events@, range, now as int),
{
    let now = now_micros();
    bucket_statuses_at(events, range, now)
}

/// The bucket statuses of every endpoint's events over `range`, ending at `now`.
pub fn endpoint_buckets(history: &Vec<(String, Vec<UptimeEvent>)>, range: TimeRange, now: i64) -> (r:
    Vec<(String, Vec<BucketStatus>)>)
    ensures
        r@.len() == history@.len(),
        forall|i: int|
            0 <= i < r@.len() ==> {
                &&& (#[trigger] r@[i]).0@ == history@[i].0@
                &&& r@[i].1@ == buckets_spec(history@[i].1@, range, now as int)
                &&& r@[i].1@.len() == NUM_BUCKETS
            },
{
    let mut out: Vec<(String, Vec<BucketStatus>)> = Vec::new();
    let mut i: usize = 0;
    while i < history.len()
        invariant
            i <= history@.len(),
            out@.len() == i,
            forall|k: int|
                0 <= k < i ==> {
                    &&& (#[trigger] out@[k]).0@ == history@[k].0@
                    &&& out@[k].1@ == buckets_spec(history@[k].1@, range, now as int)
                    &&& out@[k].1@.len() == NUM_BUCKETS
                },
        decreases history@.len() - i,
    {
        let name = history[i].0.clone();
        let statuses = bucket_statuses_at(&history[i].1, range, now);
        out.push((name, statuses));
        i = i + 1;
    }
    out
}

/// Every endpoint receives exactly thirty bucket statuses, whatever the range.
pub proof fn lemma_bucket_count(ev: Seq<UptimeEvent>, r: TimeRange, now: int)
    ensures
        buckets_spec(ev, r, now).len() == NUM_BUCKETS,
{
}

/// What std's `DefaultHasher` (made by `new`, with fixed keys) yields after hashing each text
/// of `parts` in order: it depends on the texts alone.
pub uninterp spec fn default_hash_of(parts: Seq<Seq<char>>) -> u64;

/// Relies on std's `DefaultHasher::new`, `<str as Hash>::hash` and `Hasher::finish`: the hash
/// of the given texts, fed in order to a hasher with fixed keys.
#[verifier::external_body]
fn default_hash(parts: &Vec<&str>) -> (r: u64)
    ensures
        r == default_hash_of(parts@.map_values(|p: &str| p@)),
{
    let mut hasher = std::collections::hash_map::DefaultHasher::new();
    for p in parts.iter() {
        std::hash::Hash::hash(*p, &mut hasher);
    }
    std::hash::Hasher::finish(&hasher)
}

/// The Crockford base-32 digits.
pub open spec fn crockford_digits() -> Seq<char> {
    seq![
        '0', '1', '2', '3', '4', '5', '6', '7', '8', '9', 'A', 'B', 'C', 'D', 'E', 'F', 'G', 'H',
        'J', 'K', 'M', 'N', 'P', 'Q', 'R', 'S', 'T', 'V', 'W', 'X', 'Y', 'Z',
    ]
}

/// The 26 Crockford base-32 digits of `v`, most significant first.
pub open spec fn ulid_text(v: u128) -> Seq<char> {
    Seq::new(26, |k: int| crockford_digits()[(v as int / pow2((5 * (25 - k)) as nat) as int) % 32])
}

/// Relies on ulid's `Ulid::from(u128)` and `Ulid::to_string`: the value written as 26
/// Crockford base-32 digits, most significant first.
#[verifier::external_body]
fn ulid_string(v: u128) -> (r: String)
    ensures
        r@ == ulid_text(v),
{
    ulid::Ulid::from(v).to_string()
}

/// Domain-separation text mixed into the second half of an endpoint identifier.
pub const ID_SEED: &'static str = "uptime-forge";

/// The 128-bit value behind the identifier of the endpoint named `name`.
pub open spec fn endpoint_id_value(name: Seq<char>) -> int {
    default_hash_of(seq![name]) as int * 0x1_0000_0000_0000_0000 + default_hash_of(
        seq![ID_SEED@, name],
    ) as int
}

/// The identifier of the endpoint named `name`.
pub open spec fn endpoint_id_spec(name: Seq<char>) -> Seq<char> {
    ulid_text(endpoint_id_value(name) as u128)
}

/// The stable identifier under which the events of the endpoint named `name` are stored:
/// two 64-bit hashes of the name, the second seeded, as one 26-character ULID text.
pub fn endpoint_id_from_name(name: &str) -> (r: String)
    ensures
        r@ == endpoint_id_spec(name@),
        r@.len() == 26,
{
    let mut first: Vec<&str> = Vec::new();
    first.push(name);
    let h1 = default_hash(&first);
    let mut second: Vec<&str> = Vec::new();
    second.push(ID_SEED);
    second.push(name);
    let h2 = default_hash(&second);
    assert(first@.map_values(|p: &str| p@) =~= seq![name@]);
    assert(second@.map_values(|p: &str| p@) =~= seq![ID_SEED@, name@]);
    assert(h1 as int * 0x1_0000_0000_0000_0000 + h2 as int <= u128::MAX) by (nonlinear_arith)
        requires
            h1 <= u64::MAX,
            h2 <= u64::MAX,
    ;
    let combined: u128 = h1 as u128 * 0x1_0000_0000_0000_0000 + h2 as u128;
    ulid_string(combined)
}


/// The columns stored for one check outcome, apart from its timestamp.
#[derive(Debug)]
pub struct EventRecord {
    pub endpoint_id: String,
    pub status_code: Option<i32>,
    pub success: bool,
    pub latency_ms: Option<i32>,
    pub error_type: Option<&'static str>,
    pub error_message: Option<String>,
}

/// A latency in milliseconds as stored: values beyond `i32::MAX` are stored as `i32::MAX`.
pub open spec fn stored_latency(l: u64) -> i32 {
    if l <= i32::MAX as u64 {
        l as i32
    } else {
        i32::MAX
    }
}

/// The record stored for the outcome `result`.
pub fn event_record(result: &CheckResult) -> (r: EventRecord)
    ensures
        r.endpoint_id@ == endpoint_id_spec(result.name@),
        r.status_code == match result.status_code {
            Some(c) => Some(c as i32),
            None => None::<i32>,
        },
        r.success == result.is_up,
        r.latency_ms == match result.response_time_ms {
            Some(l) => Some(stored_latency(l)),
            None => None::<i32>,
        },
        match r.error_type {
            Some(t) => result.error_type matches Some(e) && t@ == error_kind_text(e),
            None => result.error_type is None,
        },
        opt_view(r.error_message) == opt_view(result.error),
{
    let status_code = match result.status_code {
        Some(c) => Some(c as i32),
        None => None,
    };
    let latency_ms = match result.response_time_ms {
        Some(l) => Some(
            if l <= i32::MAX as u64 {
                l as i32
            } else {
                i32::MAX
            },
        ),
        None => None,
    };
    let error_type = match &result.error_type {
        Some(e) => Some(e.as_str()),
        None => None,
    };
    let error_message = match &result.error {
        Some(m) => Some(m.clone()),
        None => None,
    };
    EventRecord {
        endpoint_id: endpoint_id_from_name(result.name.as_str()),
        status_code,
        success: result.is_up,
        latency_ms,
        error_type,
        error_message,
    }
}

} // verus!
