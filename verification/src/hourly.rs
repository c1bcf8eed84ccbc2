//! The hourly time series: the records grouped into contiguous hour buckets
//! from the earliest record's hour through the hour after the window's end,
//! with empty hours kept so the series has no gaps.

use vstd::prelude::*;
use crate::types::{HourlyBucket, TimeWindow, TransactionRecord, MAX_TIMESTAMP, ts_in_range};
use crate::aggregate::sorted_by_timestamp;

verus! {

/// One bucket spans this many seconds.
pub const SECONDS_PER_HOUR: i64 = 3600;

/// `t` truncated down to the start of its hour.
pub open spec fn hour_floor(t: int) -> int {
    3600 * (t / 3600)
}

/// How many records fall in `[lo, hi)`.
pub open spec fn count_between(s: Seq<TransactionRecord>, lo: int, hi: int) -> int
    decreases s.len(),
{
    if s.len() == 0 {
        0
    } else {
        count_between(s.drop_last(), lo, hi) + if lo <= s.last().timestamp < hi {
            1int
        } else {
            0int
        }
    }
}

/// How many successful records fall in `[lo, hi)`.
pub open spec fn count_success_between(s: Seq<TransactionRecord>, lo: int, hi: int) -> int
    decreases s.len(),
{
    if s.len() == 0 {
        0
    } else {
        count_success_between(s.drop_last(), lo, hi) + if s.last().success && lo
            <= s.last().timestamp < hi {
            1int
        } else {
            0int
        }
    }
}

/// The hour of the earliest record — the records arrive sorted, so their
/// first one is earliest.
pub open spec fn first_hour(s: Seq<TransactionRecord>) -> int {
    hour_floor(s[0].timestamp as int)
}

/// The last bucket's hour: the window end's hour plus one more, so the
/// partial final hour is included.
pub open spec fn last_hour(w: TimeWindow) -> int {
    hour_floor(w.to as int) + 3600
}

/// What the hourly series of `s` over `w` looks like: no records, no series;
/// otherwise one bucket per hour from the earliest record's hour through the
/// hour after the window's end, each carrying the counts of the records
/// whose timestamps fall inside it.
pub open spec fn buckets_for(s: Seq<TransactionRecord>, w: TimeWindow, b: Seq<HourlyBucket>) -> bool {
    if s.len() == 0 {
        b.len() == 0
    } else {
        &&& b.len() == if first_hour(s) <= last_hour(w) {
            (last_hour(w) - first_hour(s)) / 3600 + 1
        } else {
            0
        }
        &&& forall|i: int| 0 <= i < b.len() ==> (#[trigger] b[i]).hour_start == first_hour(s)
            + 3600 * i
        &&& forall|i: int| 0 <= i < b.len() ==> (#[trigger] b[i]).total_count == count_between(
            s,
            b[i].hour_start as int,
            b[i].hour_start + 3600,
        )
        &&& forall|i: int| 0 <= i < b.len() ==> (#[trigger] b[i]).successful_count
            == count_success_between(s, b[i].hour_start as int, b[i].hour_start + 3600)
    }
}

/// Counts the records, total and successful, whose timestamp falls in
/// `[lo, lo + 3600)`.
fn count_hour(records: &Vec<TransactionRecord>, lo: i64) -> (r: (usize, usize))
    requires
        -7200 <= lo <= MAX_TIMESTAMP + 3600,
    ensures
        r.0 == count_success_between(records@, lo as int, lo + 3600),
        r.1 == count_between(records@, lo as int, lo + 3600),
{
    let hi: i64 = lo + 3600;
    let mut successful: usize = 0;
    let mut total: usize = 0;
    let mut i: usize = 0;
    let n: usize = records.len();
    while i < n
        invariant
            n == records@.len(),
            0 <= i <= n,
            hi == lo + 3600,
            total == count_between(records@.take(i as int), lo as int, hi as int),
            successful == count_success_between(records@.take(i as int), lo as int, hi as int),
            total <= i,
            successful <= i,
        decreases n - i,
    {
        proof {
            assert(records@.take(i + 1).drop_last() =~= records@.take(i as int));
            assert(records@.take(i + 1).last() == records@[i as int]);
        }
        let x = &records[i];
        if lo <= x.timestamp && x.timestamp < hi {
            total = total + 1;
            if x.success {
                successful = successful + 1;
            }
        }
        i = i + 1;
    }
    proof {
        assert(records@.take(n as int) =~= records@);
    }
    (successful, total)
}

/// Builds the hourly series of the records over the window: the second,
/// derived pass of the aggregation.  Timestamps must lie in the range the
/// library handles, which keeps every hour boundary inside `i64`.
pub fn hourly_buckets(records: &Vec<TransactionRecord>, w: &TimeWindow) -> (r: Vec<HourlyBucket>)
    requires
        forall|i: int| 0 <= i < records@.len() ==> ts_in_range(
            (#[trigger] records@[i]).timestamp,
        ),
        ts_in_range(w.to),
    ensures
        buckets_for(records@, *w, r@),
{
    let mut r: Vec<HourlyBucket> = Vec::new();
    if records.len() == 0 {
        return r;
    }
    let first: i64 = hour_floor_exec(records[0].timestamp);
    let end: i64 = hour_floor_exec(w.to) + 3600;
    let mut current: i64 = first;
    let ghost mut k: int = 0;
    while current <= end
        invariant
            records@.len() > 0,
            forall|i: int| 0 <= i < records@.len() ==> ts_in_range(
                (#[trigger] records@[i]).timestamp,
            ),
            first == first_hour(records@),
            end == last_hour(*w),
            0 <= first <= MAX_TIMESTAMP,
            3600 <= end <= MAX_TIMESTAMP + 3600,
            k == r@.len(),
            current == first + 3600 * k,
            k >= 0,
            k > 0 ==> first + 3600 * (k - 1) <= end,
            forall|i: int| 0 <= i < r@.len() ==> (#[trigger] r@[i]).hour_start == first + 3600
                * i,
            forall|i: int| 0 <= i < r@.len() ==> (#[trigger] r@[i]).total_count == count_between(
                records@,
                r@[i].hour_start as int,
                r@[i].hour_start + 3600,
            ),
            forall|i: int| 0 <= i < r@.len() ==> (#[trigger] r@[i]).successful_count
                == count_success_between(records@, r@[i].hour_start as int, r@[i].hour_start
                + 3600),
        decreases end + 3600 - current,
    {
        let (successful_count, total_count) = count_hour(records, current);
        r.push(HourlyBucket { hour_start: current, successful_count, total_count });
        proof {
            k = k + 1;
        }
        current = current + 3600;
    }
    proof {
        if first <= end {
            assert(k > 0);
            assert(first + 3600 * (k - 1) <= end);
            assert(end < first + 3600 * k);
            vstd::arithmetic::div_mod::lemma_fundamental_div_mod_converse(
                end - first,
                3600,
                k - 1,
                end - (first + 3600 * (k - 1)),
            );
            assert(k == (end - first) / 3600 + 1);
        }
    }
    r
}

/// `t` truncated down to the start of its hour.
fn hour_floor_exec(t: i64) -> (r: i64)
    requires
        ts_in_range(t),
    ensures
        r == hour_floor(t as int),
        0 <= r <= t,
        r % 3600 == 0,
{
    proof {
        vstd::arithmetic::div_mod::lemma_fundamental_div_mod(t as int, 3600);
        vstd::arithmetic::div_mod::lemma_mod_bound(t as int, 3600);
        assert(3600 * ((t as int) / 3600) % 3600 == 0) by {
            vstd::arithmetic::div_mod::lemma_mod_multiples_basic((t as int) / 3600, 3600);
        }
    }
    (t / 3600) * 3600
}

/// The sum of the buckets' total counts.
pub open spec fn sum_total_counts(b: Seq<HourlyBucket>) -> int
    decreases b.len(),
{
    if b.len() == 0 {
        0
    } else {
        sum_total_counts(b.drop_last()) + b.last().total_count
    }
}

/// An empty interval holds no records.
proof fn lemma_count_between_empty(s: Seq<TransactionRecord>, lo: int, hi: int)
    requires
        lo >= hi,
    ensures
        count_between(s, lo, hi) == 0,
    decreases s.len(),
{
    if s.len() > 0 {
        lemma_count_between_empty(s.drop_last(), lo, hi);
    }
}

/// Adjacent intervals count separately: `[a, b)` and `[b, c)` together hold
/// what `[a, c)` holds.
proof fn lemma_count_between_additive(s: Seq<TransactionRecord>, a: int, b: int, c: int)
    requires
        a <= b <= c,
    ensures
        count_between(s, a, b) + count_between(s, b, c) == count_between(s, a, c),
    decreases s.len(),
{
    if s.len() > 0 {
        lemma_count_between_additive(s.drop_last(), a, b, c);
    }
}

/// An interval containing every record's timestamp counts them all.
proof fn lemma_count_between_all(s: Seq<TransactionRecord>, lo: int, hi: int)
    requires
        forall|i: int| 0 <= i < s.len() ==> lo <= (#[trigger] s[i]).timestamp < hi,
    ensures
        count_between(s, lo, hi) == s.len(),
    decreases s.len(),
{
    if s.len() > 0 {
        assert(s.last() == s[s.len() - 1]);
        lemma_count_between_all(s.drop_last(), lo, hi);
    }
}

/// The series' buckets are contiguous ascending hours with no gaps, and when
/// every record lies inside the window, the series runs out past the
/// window's end: the last bucket's hour reaches at or beyond `to`.
pub proof fn lemma_buckets_contiguous(
    s: Seq<TransactionRecord>,
    w: TimeWindow,
    b: Seq<HourlyBucket>,
)
    requires
        buckets_for(s, w, b),
        s.len() > 0,
        forall|i: int| 0 <= i < s.len() ==> (#[trigger] s[i]).timestamp <= w.to,
        forall|i: int| 0 <= i < s.len() ==> ts_in_range((#[trigger] s[i]).timestamp),
        ts_in_range(w.to),
    ensures
        b.len() > 0,
        forall|i: int| 0 <= i < b.len() - 1 ==> (#[trigger] b[i + 1]).hour_start == b[i].hour_start
            + 3600,
        b[b.len() - 1].hour_start >= w.to,
{
    lemma_hour_floor_le(s[0].timestamp as int);
    lemma_hour_floor_le(w.to as int);
    lemma_hour_floor_mono(s[0].timestamp as int, w.to as int);
    assert(first_hour(s) <= hour_floor(w.to as int));
    assert(b.len() == (last_hour(w) - first_hour(s)) / 3600 + 1);
    assert((last_hour(w) - first_hour(s)) / 3600 >= 0) by {
        vstd::arithmetic::div_mod::lemma_div_is_ordered(0, last_hour(w) - first_hour(s), 3600);
    }
    let n = b.len() - 1;
    assert(b[n].hour_start == first_hour(s) + 3600 * n);
    assert(3600 * n == last_hour(w) - first_hour(s)) by {
        lemma_hour_floor_sub_divisible(s[0].timestamp as int, w.to as int);
        vstd::arithmetic::div_mod::lemma_fundamental_div_mod(last_hour(w) - first_hour(s), 3600);
    }
    assert(b[n].hour_start == last_hour(w));
    assert(b[n].hour_start >= w.to);
}

/// An hour start is at most its timestamp.
proof fn lemma_hour_floor_le(t: int)
    requires
        t >= 0,
    ensures
        0 <= hour_floor(t) <= t,
        t < hour_floor(t) + 3600,
{
    vstd::arithmetic::div_mod::lemma_fundamental_div_mod(t, 3600);
    vstd::arithmetic::div_mod::lemma_mod_bound(t, 3600);
    vstd::arithmetic::div_mod::lemma_div_is_ordered(0, t, 3600);
}

/// Truncation to hours is monotone.
proof fn lemma_hour_floor_mono(a: int, b: int)
    requires
        a <= b,
    ensures
        hour_floor(a) <= hour_floor(b),
{
    vstd::arithmetic::div_mod::lemma_div_is_ordered(a, b, 3600);
}

/// The span between two hour starts is a whole number of hours.
proof fn lemma_hour_floor_sub_divisible(a: int, b: int)
    ensures
        (hour_floor(b) + 3600 - hour_floor(a)) % 3600 == 0,
{
    let qa = a / 3600;
    let qb = b / 3600;
    assert(hour_floor(b) + 3600 - hour_floor(a) == 3600 * (qb + 1 - qa)) by {
        assert(3600 * (qb + 1 - qa) == 3600 * qb + 3600 - 3600 * qa) by (nonlinear_arith);
    }
    vstd::arithmetic::div_mod::lemma_mod_multiples_basic(qb + 1 - qa, 3600);
}

/// The partial sums of the bucket totals count the records hour span by hour
/// span.
proof fn lemma_bucket_partial_sums(s: Seq<TransactionRecord>, w: TimeWindow, b: Seq<HourlyBucket>, k: int)
    requires
        buckets_for(s, w, b),
        s.len() > 0,
        0 <= k <= b.len(),
    ensures
        sum_total_counts(b.take(k)) == count_between(s, first_hour(s), first_hour(s) + 3600 * k),
    decreases k,
{
    if k == 0 {
        lemma_count_between_empty(s, first_hour(s), first_hour(s));
        assert(b.take(0) =~= Seq::<HourlyBucket>::empty());
    } else {
        lemma_bucket_partial_sums(s, w, b, k - 1);
        assert(b.take(k).drop_last() =~= b.take(k - 1));
        assert(b.take(k).last() == b[k - 1]);
        assert(b[k - 1].hour_start == first_hour(s) + 3600 * (k - 1));
        assert(3600 * k == 3600 * (k - 1) + 3600) by (nonlinear_arith);
        lemma_count_between_additive(
            s,
            first_hour(s),
            first_hour(s) + 3600 * (k - 1),
            first_hour(s) + 3600 * k,
        );
    }
}

/// Every record lands in exactly one bucket: the buckets' total counts sum
/// to the record count, whenever every record lies inside the window.
pub proof fn lemma_buckets_cover(s: Seq<TransactionRecord>, w: TimeWindow, b: Seq<HourlyBucket>)
    requires
        buckets_for(s, w, b),
        sorted_by_timestamp(s),
        forall|i: int| 0 <= i < s.len() ==> (#[trigger] s[i]).timestamp <= w.to,
        forall|i: int| 0 <= i < s.len() ==> ts_in_range((#[trigger] s[i]).timestamp),
        ts_in_range(w.to),
    ensures
        sum_total_counts(b) == s.len(),
{
    if s.len() == 0 {
        assert(b.len() == 0);
    } else {
        lemma_buckets_contiguous(s, w, b);
        let n = b.len() as int;
        lemma_bucket_partial_sums(s, w, b, n);
        assert(b.take(n) =~= b);
        assert(3600 * n == last_hour(w) + 3600 - first_hour(s)) by {
            assert(b[n - 1].hour_start == first_hour(s) + 3600 * (n - 1));
            assert(b[n - 1].hour_start == last_hour(w));
            assert(3600 * n == 3600 * (n - 1) + 3600) by (nonlinear_arith);
        }
        assert forall|i: int| 0 <= i < s.len() implies first_hour(s) <= (
        #[trigger] s[i]).timestamp < first_hour(s) + 3600 * n by {
            lemma_hour_floor_le(s[0].timestamp as int);
            lemma_hour_floor_le(w.to as int);
            assert(s[0].timestamp <= s[i].timestamp);
        }
        lemma_count_between_all(s, first_hour(s), first_hour(s) + 3600 * n);
    }
}

} // verus!
