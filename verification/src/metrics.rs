//! The integer part of proxy metrics: bucket sizes and keys, request,
//! error and byte totals, the status distribution, and the per-bucket
//! counts of a time series.
use vstd::prelude::*;

use crate::text::str_eq;

verus! {

/// The bucket size in seconds for a time range: one minute for `1h`, five
/// for `6h`, fifteen for `24h`, one minute otherwise.
pub open spec fn bucket_seconds_spec(time_range: Seq<char>) -> i64 {
    if time_range == "1h"@ {
        60
    } else if time_range == "6h"@ {
        300
    } else if time_range == "24h"@ {
        900
    } else {
        60
    }
}

/// The bucket size in seconds for a time range.
pub fn bucket_seconds(time_range: &str) -> (r: i64)
    ensures
        r == bucket_seconds_spec(time_range@),
{
    if str_eq(time_range, "1h") {
        60
    } else if str_eq(time_range, "6h") {
        300
    } else if str_eq(time_range, "24h") {
        900
    } else {
        60
    }
}

/// How many hours back a time range reaches: 1, 6 or 24 (1 otherwise).
pub open spec fn range_hours_spec(time_range: Seq<char>) -> i64 {
    if time_range == "6h"@ {
        6
    } else if time_range == "24h"@ {
        24
    } else {
        1
    }
}

/// How many hours back a time range reaches.
pub fn range_hours(time_range: &str) -> (r: i64)
    ensures
        r == range_hours_spec(time_range@),
{
    if str_eq(time_range, "6h") {
        6
    } else if str_eq(time_range, "24h") {
        24
    } else {
        1
    }
}

/// The time ranges the metrics view offers: one, six and twenty-four hours.
pub open spec fn is_named_range(time_range: Seq<char>) -> bool {
    time_range == "1h"@ || time_range == "6h"@ || time_range == "24h"@
}

/// Each named time range reaches back the number of hours written in its
/// name (the digits before its final `h`), and its buckets tile that window
/// exactly; any other range falls back to one hour.
pub proof fn law_range_hours_as_named(time_range: Seq<char>)
    ensures
        is_named_range(time_range) ==> {
            &&& time_range.last() == 'h'
            &&& crate::text::all_digits(time_range.drop_last())
            &&& range_hours_spec(time_range) == crate::text::digits_value(time_range.drop_last())
            &&& (range_hours_spec(time_range) * 3600) % (bucket_seconds_spec(time_range) as int) == 0
        },
        !is_named_range(time_range) ==> range_hours_spec(time_range) == 1,
{
    reveal_strlit("1h");
    reveal_strlit("6h");
    reveal_strlit("24h");
    assert(crate::text::digit_value('1') == 1 && crate::text::digit_value('2') == 2 && crate::text::digit_value('4') == 4 && crate::text::digit_value('6') == 6) by {
        assert('1' as u32 == 49 && '2' as u32 == 50 && '4' as u32 == 52 && '6' as u32 == 54 && '0' as u32 == 48);
    }
    let e = Seq::<char>::empty();
    let d1: Seq<char> = seq!['1'];
    let d2: Seq<char> = seq!['2'];
    let d6: Seq<char> = seq!['6'];
    let d24: Seq<char> = seq!['2', '4'];
    assert(d1.drop_last() =~= e);
    assert(d2.drop_last() =~= e);
    assert(d6.drop_last() =~= e);
    assert(d24.drop_last() =~= d2);
    assert(crate::text::digits_value(e) == 0);
    assert(d1.last() == '1' && d2.last() == '2' && d6.last() == '6' && d24.last() == '4');
    assert(crate::text::digits_value(d1) == 1);
    assert(crate::text::digits_value(d2) == 2);
    assert(crate::text::digits_value(d6) == 6);
    assert(crate::text::digits_value(d24) == 24);
    assert("24h"@ != "6h"@ && "24h"@ != "1h"@ && "6h"@ != "1h"@) by {
        assert("24h"@.len() == 3 && "6h"@.len() == 2 && "6h"@[0] != "1h"@[0]);
    }
    if time_range == "24h"@ {
        assert(time_range.drop_last() =~= d24);
        assert(crate::text::all_digits(d24));
        assert(range_hours_spec(time_range) == 24);
        assert(bucket_seconds_spec(time_range) == 900);
        assert(time_range.last() == 'h');
        assert((24 * 3600int) % 900 == 0);
    } else if time_range == "6h"@ {
        assert(time_range.drop_last() =~= d6);
        assert(crate::text::all_digits(d6));
        assert(range_hours_spec(time_range) == 6);
        assert(bucket_seconds_spec(time_range) == 300);
        assert(time_range.last() == 'h');
        assert((6 * 3600int) % 300 == 0);
    } else if time_range == "1h"@ {
        assert(time_range.drop_last() =~= d1);
        assert(crate::text::all_digits(d1));
        assert(range_hours_spec(time_range) == 1);
        assert(bucket_seconds_spec(time_range) == 60);
        assert(time_range.last() == 'h');
        assert((1 * 3600int) % 60 == 0);
    }
}

/// The start of the bucket holding second `ts`: `ts` rounded toward zero to
/// a multiple of the bucket size (as `i64` division does).
pub open spec fn bucket_key_spec(ts: i64, bucket_secs: i64) -> int {
    let t = ts as int;
    let b = bucket_secs as int;
    if t >= 0 {
        (t / b) * b
    } else {
        -(((-t) / b) * b)
    }
}

/// The start of the bucket holding second `ts`.
pub fn bucket_key(ts: i64, bucket_secs: i64) -> (r: i64)
    requires
        bucket_secs > 0,
    ensures
        r == bucket_key_spec(ts, bucket_secs),
{
    let q = ts / bucket_secs;
    proof {
        if ts >= 0 {
            assert(q == ts as int / bucket_secs as int);
            assert(0 <= q * bucket_secs <= ts) by (nonlinear_arith)
                requires
                    q == ts as int / bucket_secs as int,
                    ts >= 0,
                    bucket_secs > 0,
            ;
        } else {
            assert(q == -((-ts) as int / bucket_secs as int));
            assert(ts <= q * bucket_secs <= 0) by (nonlinear_arith)
                requires
                    q == -((-ts) as int / bucket_secs as int),
                    ts < 0,
                    bucket_secs > 0,
            ;
            assert(q * bucket_secs == -(((-ts) as int / bucket_secs as int) * bucket_secs)) by (nonlinear_arith)
                requires
                    q == -((-ts) as int / bucket_secs as int),
            ;
        }
    }
    q * bucket_secs
}

/// What the aggregation reads of a log entry.
#[derive(Debug, Clone, Copy, PartialEq, Eq)]
pub struct EntryFacts {
    /// The entry's time, in seconds since the Unix epoch.
    pub time: i64,
    pub status: u16,
    pub bytes: u64,
    pub is_http: bool,
}

/// A response with status 400 or above is an error.
pub open spec fn is_error(e: EntryFacts) -> bool {
    e.status >= 400
}

/// The status group of an HTTP entry: 0 for 2xx, 1 for 3xx, 2 for 4xx and 3
/// for everything else (reported as 5xx).
pub open spec fn status_group(status: u16) -> int {
    if 200 <= status <= 299 {
        0
    } else if 300 <= status <= 399 {
        1
    } else if 400 <= status <= 499 {
        2
    } else {
        3
    }
}

/// The number of errors among the entries.
pub open spec fn errors_of(es: Seq<EntryFacts>) -> nat
    decreases es.len(),
{
    if es.len() == 0 {
        0
    } else {
        errors_of(es.drop_last()) + if is_error(es.last()) {
            1nat
        } else {
            0nat
        }
    }
}

/// The bytes of the entries.
pub open spec fn bytes_of(es: Seq<EntryFacts>) -> nat
    decreases es.len(),
{
    if es.len() == 0 {
        0
    } else {
        bytes_of(es.drop_last()) + es.last().bytes as nat
    }
}

/// The number of HTTP entries in status group `g`.
pub open spec fn group_count(es: Seq<EntryFacts>, g: int) -> nat
    decreases es.len(),
{
    if es.len() == 0 {
        0
    } else {
        group_count(es.drop_last(), g) + if es.last().is_http && status_group(es.last().status) == g {
            1nat
        } else {
            0nat
        }
    }
}

/// The number of HTTP entries.
pub open spec fn http_count(es: Seq<EntryFacts>) -> nat
    decreases es.len(),
{
    if es.len() == 0 {
        0
    } else {
        http_count(es.drop_last()) + if es.last().is_http {
            1nat
        } else {
            0nat
        }
    }
}

/// The counts of one bucket of the time series.
#[derive(Debug, Clone, Copy, PartialEq, Eq)]
pub struct BucketCounts {
    /// The bucket's start, in seconds since the Unix epoch.
    pub key: i64,
    pub requests: u64,
    pub errors: u64,
    pub bytes: u64,
}

/// The number of HTTP responses of one status group.
#[derive(Debug, Clone)]
pub struct StatusGroup {
    pub group: String,
    pub count: u64,
}

/// The integer metrics of a set of entries.
#[derive(Debug, Clone)]
pub struct MetricCounts {
    pub total_requests: u64,
    pub error_count: u64,
    pub total_bytes: u64,
    /// The buckets in increasing order of start.
    pub buckets: Vec<BucketCounts>,
    /// The non-empty status groups, in the order 2xx, 3xx, 4xx, 5xx.
    pub status_distribution: Vec<StatusGroup>,
}

} // verus!

verus! {

/// The requests of the entries in the bucket starting at `key`.
pub open spec fn requests_in(es: Seq<EntryFacts>, key: int, b: i64) -> nat
    decreases es.len(),
{
    if es.len() == 0 {
        0
    } else {
        requests_in(es.drop_last(), key, b) + if bucket_key_spec(es.last().time, b) == key {
            1nat
        } else {
            0nat
        }
    }
}

/// The errors of the entries in the bucket starting at `key`.
pub open spec fn errors_in(es: Seq<EntryFacts>, key: int, b: i64) -> nat
    decreases es.len(),
{
    if es.len() == 0 {
        0
    } else {
        errors_in(es.drop_last(), key, b) + if bucket_key_spec(es.last().time, b) == key && is_error(
            es.last(),
        ) {
            1nat
        } else {
            0nat
        }
    }
}

/// The bytes of the entries in the bucket starting at `key`.
pub open spec fn bytes_in(es: Seq<EntryFacts>, key: int, b: i64) -> nat
    decreases es.len(),
{
    if es.len() == 0 {
        0
    } else {
        bytes_in(es.drop_last(), key, b) + if bucket_key_spec(es.last().time, b) == key {
            es.last().bytes as nat
        } else {
            0nat
        }
    }
}

/// The bucket starts from `t` up to `last`, `b` apart.
pub open spec fn prefill_keys(t: int, last: int, b: int) -> Seq<int>
    decreases last + b - t,
{
    if b <= 0 || t > last {
        Seq::empty()
    } else {
        seq![t] + prefill_keys(t + b, last, b)
    }
}

/// Some bucket starts at `k`.
pub open spec fn has_bucket(bs: Seq<BucketCounts>, k: int) -> bool {
    exists|a: int| 0 <= a < bs.len() && (#[trigger] bs[a]).key == k
}

/// One of the first `n` entries falls in the bucket starting at `k`.
pub open spec fn entry_in_bucket(es: Seq<EntryFacts>, k: int, b: i64, n: int) -> bool {
    exists|j: int| 0 <= j < n && bucket_key_spec((#[trigger] es[j]).time, b) == k
}

/// The buckets start at increasing times.
pub open spec fn increasing(bs: Seq<BucketCounts>) -> bool {
    forall|a: int, c: int| 0 <= a < c < bs.len() ==> (#[trigger] bs[a]).key < (#[trigger] bs[c]).key
}

/// Each bucket holds the counts of its entries.
pub open spec fn counted(bs: Seq<BucketCounts>, es: Seq<EntryFacts>, b: i64) -> bool {
    forall|a: int|
        0 <= a < bs.len() ==> (#[trigger] bs[a]).requests == requests_in(es, bs[a].key as int, b)
            && bs[a].errors == errors_in(es, bs[a].key as int, b) && bs[a].bytes == bytes_in(
            es,
            bs[a].key as int,
            b,
        )
}

/// The sum of the buckets' requests.
pub open spec fn sum_requests(bs: Seq<BucketCounts>) -> nat
    decreases bs.len(),
{
    if bs.len() == 0 {
        0
    } else {
        sum_requests(bs.drop_last()) + bs.last().requests as nat
    }
}

/// The sum of the buckets' errors.
pub open spec fn sum_errors(bs: Seq<BucketCounts>) -> nat
    decreases bs.len(),
{
    if bs.len() == 0 {
        0
    } else {
        sum_errors(bs.drop_last()) + bs.last().errors as nat
    }
}

/// The sum of the buckets' bytes.
pub open spec fn sum_bytes(bs: Seq<BucketCounts>) -> nat
    decreases bs.len(),
{
    if bs.len() == 0 {
        0
    } else {
        sum_bytes(bs.drop_last()) + bs.last().bytes as nat
    }
}

proof fn lemma_sums_update(bs: Seq<BucketCounts>, p: int, x: BucketCounts)
    requires
        0 <= p < bs.len(),
    ensures
        sum_requests(bs.update(p, x)) == sum_requests(bs) - bs[p].requests + x.requests,
        sum_errors(bs.update(p, x)) == sum_errors(bs) - bs[p].errors + x.errors,
        sum_bytes(bs.update(p, x)) == sum_bytes(bs) - bs[p].bytes + x.bytes,
    decreases bs.len(),
{
    let u = bs.update(p, x);
    if p == bs.len() - 1 {
        assert(u.drop_last() =~= bs.drop_last());
    } else {
        assert(u.drop_last() =~= bs.drop_last().update(p, x));
        lemma_sums_update(bs.drop_last(), p, x);
    }
}

proof fn lemma_sums_insert(bs: Seq<BucketCounts>, p: int, x: BucketCounts)
    requires
        0 <= p <= bs.len(),
    ensures
        sum_requests(bs.insert(p, x)) == sum_requests(bs) + x.requests,
        sum_errors(bs.insert(p, x)) == sum_errors(bs) + x.errors,
        sum_bytes(bs.insert(p, x)) == sum_bytes(bs) + x.bytes,
    decreases bs.len(),
{
    let u = bs.insert(p, x);
    if p == bs.len() {
        assert(u.drop_last() =~= bs);
    } else {
        assert(u.drop_last() =~= bs.drop_last().insert(p, x));
        lemma_sums_insert(bs.drop_last(), p, x);
    }
}

proof fn lemma_in_bounds(es: Seq<EntryFacts>, k: int, b: i64)
    ensures
        requests_in(es, k, b) <= es.len(),
        errors_in(es, k, b) <= requests_in(es, k, b),
        bytes_in(es, k, b) <= bytes_of(es),
    decreases es.len(),
{
    if es.len() > 0 {
        lemma_in_bounds(es.drop_last(), k, b);
    }
}

proof fn lemma_prefix_bounds(es: Seq<EntryFacts>, n: int)
    requires
        0 <= n <= es.len(),
    ensures
        bytes_of(es.subrange(0, n)) <= bytes_of(es),
        errors_of(es.subrange(0, n)) <= n,
    decreases es.len() - n,
{
    if n < es.len() {
        assert(es.subrange(0, n + 1).drop_last() =~= es.subrange(0, n));
        lemma_prefix_bounds(es, n + 1);
        lemma_errors_bound(es.subrange(0, n));
    } else {
        assert(es.subrange(0, n) =~= es);
        lemma_errors_bound(es);
    }
}

proof fn lemma_errors_bound(es: Seq<EntryFacts>)
    ensures
        errors_of(es) <= es.len(),
    decreases es.len(),
{
    if es.len() > 0 {
        lemma_errors_bound(es.drop_last());
    }
}

/// Empty buckets starting at `first` and every `b` seconds up to `last`.
fn prefill(first: i64, last: i64, b: i64) -> (r: Vec<BucketCounts>)
    requires
        b > 0,
        last <= i64::MAX - b,
    ensures
        r@.map_values(|x: BucketCounts| x.key as int) == prefill_keys(first as int, last as int, b as int),
        forall|a: int|
            0 <= a < r@.len() ==> (#[trigger] r@[a]).requests == 0 && r@[a].errors == 0
                && r@[a].bytes == 0,
        increasing(r@),
{
    let mut r: Vec<BucketCounts> = Vec::new();
    let mut t = first;
    proof {
        assert(r@.map_values(|x: BucketCounts| x.key as int) + prefill_keys(t as int, last as int, b as int)
            =~= prefill_keys(first as int, last as int, b as int));
    }
    while t <= last
        invariant
            b > 0,
            last <= i64::MAX - b,
            r@.map_values(|x: BucketCounts| x.key as int) + prefill_keys(t as int, last as int, b as int)
                == prefill_keys(first as int, last as int, b as int),
            forall|a: int|
                0 <= a < r@.len() ==> (#[trigger] r@[a]).requests == 0 && r@[a].errors == 0
                    && r@[a].bytes == 0 && r@[a].key < t,
            increasing(r@),
        decreases last + b - t,
    {
        let ghost old_r = r@;
        r.push(BucketCounts { key: t, requests: 0, errors: 0, bytes: 0 });
        proof {
            assert(r@.map_values(|x: BucketCounts| x.key as int) =~= old_r.map_values(
                |x: BucketCounts| x.key as int,
            ).push(t as int));
            assert(prefill_keys(t as int, last as int, b as int) == seq![t as int] + prefill_keys(
                t + b,
                last as int,
                b as int,
            ));
            assert(r@.map_values(|x: BucketCounts| x.key as int) + prefill_keys(
                t + b,
                last as int,
                b as int,
            ) =~= old_r.map_values(|x: BucketCounts| x.key as int) + prefill_keys(
                t as int,
                last as int,
                b as int,
            ));
        }
        t = t + b;
    }
    proof {
        assert(prefill_keys(t as int, last as int, b as int) =~= Seq::<int>::empty());
        assert(r@.map_values(|x: BucketCounts| x.key as int) + Seq::<int>::empty() =~= r@.map_values(
            |x: BucketCounts| x.key as int,
        ));
    }
    r
}

} // verus!

verus! {

proof fn lemma_absent_key(es: Seq<EntryFacts>, k: int, b: i64)
    requires
        !entry_in_bucket(es, k, b, es.len() as int),
    ensures
        requests_in(es, k, b) == 0,
        errors_in(es, k, b) == 0,
        bytes_in(es, k, b) == 0,
    decreases es.len(),
{
    if es.len() > 0 {
        let d = es.drop_last();
        assert(!entry_in_bucket(d, k, b, d.len() as int)) by {
            if entry_in_bucket(d, k, b, d.len() as int) {
                let j = choose|j: int| 0 <= j < d.len() && bucket_key_spec((#[trigger] d[j]).time, b) == k;
                assert(es[j] == d[j]);
            }
        }
        assert(bucket_key_spec(es[es.len() - 1].time, b) != k);
        lemma_absent_key(d, k, b);
    }
}

/// Counts entry `e` (of bucket `k`) into the buckets of `prefix`.
#[verifier::spinoff_prover]
#[verifier::rlimit(30)]
fn add_entry(buckets: &mut Vec<BucketCounts>, e: EntryFacts, k: i64, b: i64, Ghost(prefix): Ghost<Seq<EntryFacts>>)
    requires
        b > 0,
        k == bucket_key_spec(e.time, b),
        increasing(old(buckets)@),
        counted(old(buckets)@, prefix, b),
        forall|x: int|
            entry_in_bucket(prefix, x, b, prefix.len() as int) ==> #[trigger] has_bucket(old(buckets)@, x),
        prefix.len() + 1 <= u64::MAX,
        bytes_of(prefix.push(e)) <= u64::MAX,
    ensures
        increasing(final(buckets)@),
        counted(final(buckets)@, prefix.push(e), b),
        forall|x: int|
            #[trigger] has_bucket(final(buckets)@, x) <==> (has_bucket(old(buckets)@, x) || x == k),
        sum_requests(final(buckets)@) == sum_requests(old(buckets)@) + 1,
        sum_errors(final(buckets)@) == sum_errors(old(buckets)@) + if is_error(e) {
            1nat
        } else {
            0nat
        },
        sum_bytes(final(buckets)@) == sum_bytes(old(buckets)@) + e.bytes,
{
    let ghost old_b = buckets@;
    let ghost es2 = prefix.push(e);
    proof {
        assert(es2.drop_last() =~= prefix);
        assert(es2.last() == e);
    }
    let mut p: usize = 0;
    while p < buckets.len() && buckets[p].key < k
        invariant
            buckets@ == old_b,
            p <= old_b.len(),
            forall|a: int| 0 <= a < p ==> (#[trigger] old_b[a]).key < k,
        decreases old_b.len() - p,
    {
        p = p + 1;
    }
    let err: u64 = if e.status >= 400 {
        1
    } else {
        0
    };
    if p < buckets.len() && buckets[p].key == k {
        let old_one = buckets[p];
        proof {
            lemma_in_bounds(prefix, k as int, b);
            lemma_in_bounds(es2, k as int, b);
        }
        let nb = BucketCounts {
            key: k,
            requests: old_one.requests + 1,
            errors: old_one.errors + err,
            bytes: old_one.bytes + e.bytes,
        };
        buckets.set(p, nb);
        proof {
            lemma_sums_update(old_b, p as int, nb);
            assert forall|a: int| 0 <= a < buckets@.len() implies (#[trigger] buckets@[a]).requests
                == requests_in(es2, buckets@[a].key as int, b) && buckets@[a].errors == errors_in(
                es2,
                buckets@[a].key as int,
                b,
            ) && buckets@[a].bytes == bytes_in(es2, buckets@[a].key as int, b) by {
                if a != p {
                    assert(old_b[a].key != k);
                }
            }
            assert forall|x: int| #[trigger] has_bucket(buckets@, x) <==> (has_bucket(old_b, x) || x == k) by {
                if has_bucket(old_b, x) {
                    let a = choose|a: int| 0 <= a < old_b.len() && (#[trigger] old_b[a]).key == x;
                    assert(buckets@[a].key == x);
                }
                if has_bucket(buckets@, x) {
                    let a = choose|a: int| 0 <= a < buckets@.len() && (#[trigger] buckets@[a]).key == x;
                    assert(old_b[a].key == x);
                }
                if x == k {
                    assert(buckets@[p as int].key == x);
                }
            }
        }
    } else {
        proof {
            assert(!entry_in_bucket(prefix, k as int, b, prefix.len() as int)) by {
                if entry_in_bucket(prefix, k as int, b, prefix.len() as int) {
                    assert(has_bucket(old_b, k as int));
                    let a = choose|a: int| 0 <= a < old_b.len() && (#[trigger] old_b[a]).key == k;
                    if a < p {
                    } else if a > p {
                        assert(old_b[p as int].key < old_b[a].key);
                    }
                }
            }
            lemma_absent_key(prefix, k as int, b);
            lemma_in_bounds(es2, k as int, b);
        }
        let nb = BucketCounts { key: k, requests: 1, errors: err, bytes: e.bytes };
        buckets.insert(p, nb);
        proof {
            old_b.insert_ensures(p as int, nb);
            assert(buckets@ == old_b.insert(p as int, nb));
            lemma_sums_insert(old_b, p as int, nb);
            assert forall|j: int| p < j < buckets@.len() implies buckets@[j] == old_b[j - 1] by {
                assert(buckets@[j] == old_b.insert(p as int, nb)[(j - 1) + 1]);
            }
            assert forall|a: int, c: int| 0 <= a < c < buckets@.len() implies (#[trigger] buckets@[a]).key
                < (#[trigger] buckets@[c]).key by {
                if c < p {
                } else if c == p {
                } else if a < p {
                    assert(buckets@[c] == old_b[c - 1]);
                    if p < old_b.len() {
                        assert(old_b[p as int].key > k);
                        if c - 1 > p {
                            assert(old_b[p as int].key < old_b[c - 1].key);
                        }
                    }
                } else if a == p {
                    assert(buckets@[c] == old_b[c - 1]);
                    assert(old_b[p as int].key > k);
                    if c - 1 > p {
                        assert(old_b[p as int].key < old_b[c - 1].key);
                    }
                } else {
                    assert(buckets@[a] == old_b[a - 1]);
                    assert(buckets@[c] == old_b[c - 1]);
                }
            }
            assert forall|a: int| 0 <= a < buckets@.len() implies (#[trigger] buckets@[a]).requests
                == requests_in(es2, buckets@[a].key as int, b) && buckets@[a].errors == errors_in(
                es2,
                buckets@[a].key as int,
                b,
            ) && buckets@[a].bytes == bytes_in(es2, buckets@[a].key as int, b) by {
                if a < p {
                    assert(old_b[a].key != k);
                } else if a > p {
                    assert(buckets@[a] == old_b[a - 1]);
                    assert(old_b[a - 1].key != k) by {
                        assert(old_b[p as int].key > k);
                        if a - 1 > p {
                            assert(old_b[p as int].key < old_b[a - 1].key);
                        }
                    }
                }
            }
            assert forall|x: int| #[trigger] has_bucket(buckets@, x) <==> (has_bucket(old_b, x) || x == k) by {
                if has_bucket(old_b, x) {
                    let a = choose|a: int| 0 <= a < old_b.len() && (#[trigger] old_b[a]).key == x;
                    if a < p {
                        assert(buckets@[a].key == x);
                    } else {
                        assert(buckets@[a + 1].key == x);
                    }
                }
                if has_bucket(buckets@, x) {
                    let a = choose|a: int| 0 <= a < buckets@.len() && (#[trigger] buckets@[a]).key == x;
                    if a < p {
                        assert(old_b[a].key == x);
                    } else if a > p {
                        assert(old_b[a - 1].key == x);
                    }
                }
                if x == k {
                    assert(buckets@[p as int].key == x);
                }
            }
        }
    }
}

} // verus!

verus! {

/// The status distribution: the non-empty groups in the order 2xx, 3xx,
/// 4xx, 5xx, each with its count.
pub open spec fn distribution_spec(es: Seq<EntryFacts>) -> Seq<(Seq<char>, nat)> {
    let one = |name: Seq<char>, g: int|
        if group_count(es, g) > 0 {
            seq![(name, group_count(es, g))]
        } else {
            Seq::<(Seq<char>, nat)>::empty()
        };
    one("2xx"@, 0) + one("3xx"@, 1) + one("4xx"@, 2) + one("5xx"@, 3)
}

/// The status groups as text and count.
pub open spec fn distribution_view(v: Seq<StatusGroup>) -> Seq<(Seq<char>, nat)> {
    v.map_values(|s: StatusGroup| (s.group@, s.count as nat))
}

proof fn lemma_group_sum(es: Seq<EntryFacts>)
    ensures
        group_count(es, 0) + group_count(es, 1) + group_count(es, 2) + group_count(es, 3) == http_count(es),
        http_count(es) <= es.len(),
    decreases es.len(),
{
    if es.len() > 0 {
        lemma_group_sum(es.drop_last());
    }
}

fn push_group(out: &mut Vec<StatusGroup>, name: &str, count: u64)
    ensures
        distribution_view(final(out)@) == distribution_view(old(out)@) + if count > 0 {
            seq![(name@, count as nat)]
        } else {
            Seq::<(Seq<char>, nat)>::empty()
        },
{
    let ghost o = out@;
    if count > 0 {
        out.push(StatusGroup { group: String::from_str(name), count });
        proof {
            assert(distribution_view(out@) =~= distribution_view(o) + seq![(name@, count as nat)]);
        }
    } else {
        assert(distribution_view(out@) =~= distribution_view(o) + Seq::<(Seq<char>, nat)>::empty());
    }
}

/// The integer metrics of the entries, with buckets `bucket_secs` wide. The
/// time series is pre-filled with empty buckets from `first_key` to
/// `last_key`; entries outside that span add buckets of their own. The
/// buckets' requests, errors and bytes add up to the totals, and the status
/// groups add up to the HTTP entries.
pub fn aggregate(entries: &[EntryFacts], bucket_secs: i64, first_key: i64, last_key: i64) -> (r: MetricCounts)
    requires
        bucket_secs > 0,
        last_key <= i64::MAX - bucket_secs,
        bytes_of(entries@) <= u64::MAX,
    ensures
        r.total_requests == entries@.len(),
        r.error_count == errors_of(entries@),
        r.total_bytes == bytes_of(entries@),
        increasing(r.buckets@),
        counted(r.buckets@, entries@, bucket_secs),
        forall|k: int|
            #[trigger] has_bucket(r.buckets@, k) <==> (prefill_keys(
                first_key as int,
                last_key as int,
                bucket_secs as int,
            ).contains(k) || entry_in_bucket(entries@, k, bucket_secs, entries@.len() as int)),
        distribution_view(r.status_distribution@) == distribution_spec(entries@),
        sum_requests(r.buckets@) == r.total_requests,
        sum_errors(r.buckets@) == r.error_count,
        sum_bytes(r.buckets@) == r.total_bytes,
        r.error_count <= r.total_requests,
{
    let mut buckets = prefill(first_key, last_key, bucket_secs);
    let ghost pre = prefill_keys(first_key as int, last_key as int, bucket_secs as int);
    proof {
        let keys = buckets@.map_values(|x: BucketCounts| x.key as int);
        assert forall|k: int| #[trigger] has_bucket(buckets@, k) <==> pre.contains(k) by {
            if has_bucket(buckets@, k) {
                let a = choose|a: int| 0 <= a < buckets@.len() && (#[trigger] buckets@[a]).key == k;
                assert(keys[a] == k);
            }
            if pre.contains(k) {
                let a = choose|a: int| 0 <= a < pre.len() && pre[a] == k;
                assert(keys[a] == k);
                assert(buckets@[a].key == k);
            }
        }
        lemma_zero_sums(buckets@);
    }
    let mut total_requests: u64 = 0;
    let mut error_count: u64 = 0;
    let mut total_bytes: u64 = 0;
    let mut groups: [u64; 4] = [0, 0, 0, 0];
    let mut i: usize = 0;
    while i < entries.len()
        invariant
            bucket_secs > 0,
            bytes_of(entries@) <= u64::MAX,
            i <= entries@.len(),
            total_requests == i,
            error_count == errors_of(entries@.subrange(0, i as int)),
            total_bytes == bytes_of(entries@.subrange(0, i as int)),
            groups@.len() == 4,
            forall|g: int| 0 <= g < 4 ==> groups@[g] == group_count(entries@.subrange(0, i as int), g),
            increasing(buckets@),
            counted(buckets@, entries@.subrange(0, i as int), bucket_secs),
            forall|k: int|
                #[trigger] has_bucket(buckets@, k) <==> (pre.contains(k) || entry_in_bucket(
                    entries@,
                    k,
                    bucket_secs,
                    i as int,
                )),
            sum_requests(buckets@) == total_requests,
            sum_errors(buckets@) == error_count,
            sum_bytes(buckets@) == total_bytes,
        decreases entries@.len() - i,
    {
        let e = entries[i];
        let ghost prefix = entries@.subrange(0, i as int);
        let ghost next = entries@.subrange(0, i + 1);
        proof {
            assert(next =~= prefix.push(e));
            assert(next.drop_last() =~= prefix);
            lemma_prefix_bounds(entries@, i + 1);
            lemma_errors_bound(next);
            assert forall|x: int|
                entry_in_bucket(prefix, x, bucket_secs, prefix.len() as int) implies #[trigger] has_bucket(
                buckets@,
                x,
            ) by {
                let j = choose|j: int| 0 <= j < prefix.len() && bucket_key_spec((#[trigger] prefix[j]).time, bucket_secs) == x;
                assert(entries@[j] == prefix[j]);
                assert(entry_in_bucket(entries@, x, bucket_secs, i as int));
            }
        }
        let k = bucket_key(e.time, bucket_secs);
        add_entry(&mut buckets, e, k, bucket_secs, Ghost(prefix));
        total_requests = total_requests + 1;
        total_bytes = total_bytes + e.bytes;
        if e.status >= 400 {
            error_count = error_count + 1;
        }
        if e.is_http {
            let g: usize = if 200 <= e.status && e.status <= 299 {
                0
            } else if 300 <= e.status && e.status <= 399 {
                1
            } else if 400 <= e.status && e.status <= 499 {
                2
            } else {
                3
            };
            proof {
                lemma_group_sum(next);
            }
            groups[g] = groups[g] + 1;
        }
        proof {
            assert forall|k2: int|
                #[trigger] has_bucket(buckets@, k2) <==> (pre.contains(k2) || entry_in_bucket(
                    entries@,
                    k2,
                    bucket_secs,
                    i + 1,
                )) by {
                if entry_in_bucket(entries@, k2, bucket_secs, i + 1) && !entry_in_bucket(
                    entries@,
                    k2,
                    bucket_secs,
                    i as int,
                ) {
                    let j = choose|j: int| 0 <= j < i + 1 && bucket_key_spec((#[trigger] entries@[j]).time, bucket_secs) == k2;
                    assert(j == i);
                }
                if k2 == k {
                    assert(bucket_key_spec(entries@[i as int].time, bucket_secs) == k2);
                }
            }
        }
        i = i + 1;
    }
    proof {
        assert(entries@.subrange(0, entries@.len() as int) =~= entries@);
        lemma_errors_bound(entries@);
    }
    let mut dist: Vec<StatusGroup> = Vec::new();
    push_group(&mut dist, "2xx", groups[0]);
    push_group(&mut dist, "3xx", groups[1]);
    push_group(&mut dist, "4xx", groups[2]);
    push_group(&mut dist, "5xx", groups[3]);
    proof {
        assert(distribution_view(Seq::<StatusGroup>::empty()) =~= Seq::<(Seq<char>, nat)>::empty());
        assert(distribution_view(dist@) =~= distribution_spec(entries@));
    }
    MetricCounts { total_requests, error_count, total_bytes, buckets, status_distribution: dist }
}

proof fn lemma_zero_sums(bs: Seq<BucketCounts>)
    requires
        forall|a: int|
            0 <= a < bs.len() ==> (#[trigger] bs[a]).requests == 0 && bs[a].errors == 0 && bs[a].bytes
                == 0,
    ensures
        sum_requests(bs) == 0,
        sum_errors(bs) == 0,
        sum_bytes(bs) == 0,
    decreases bs.len(),
{
    if bs.len() > 0 {
        lemma_zero_sums(bs.drop_last());
    }
}

} // verus!

verus! {

/// Whether the entries' bytes add up within a `u64`, as `aggregate` needs.
pub fn bytes_fit(entries: &[EntryFacts]) -> (r: bool)
    ensures
        r == (bytes_of(entries@) <= u64::MAX),
{
    let mut total: u64 = 0;
    let mut i: usize = 0;
    while i < entries.len()
        invariant
            i <= entries@.len(),
            total == bytes_of(entries@.subrange(0, i as int)),
        decreases entries@.len() - i,
    {
        proof {
            assert(entries@.subrange(0, i + 1).drop_last() =~= entries@.subrange(0, i as int));
            lemma_prefix_bounds(entries@, i + 1);
        }
        if total > u64::MAX - entries[i].bytes {
            proof {
                lemma_prefix_bounds(entries@, i + 1);
            }
            return false;
        }
        total = total + entries[i].bytes;
        i = i + 1;
    }
    proof {
        assert(entries@.subrange(0, entries@.len() as int) =~= entries@);
    }
    true
}

} // verus!
