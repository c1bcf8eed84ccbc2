//! The aggregator: folds the fetched records into running totals, derives the
//! mean fee as an exact quotient and remainder, and stable-sorts the records
//! by timestamp — ties keep their fetch order, since no secondary key is
//! defined.

use vstd::prelude::*;
use crate::types::{FeeAnalysis, TimeWindow, TransactionRecord};

verus! {

/// The exact sum of the records' fees, as an unbounded integer.
pub open spec fn sum_fees(s: Seq<TransactionRecord>) -> int
    decreases s.len(),
{
    if s.len() == 0 {
        0
    } else {
        sum_fees(s.drop_last()) + s.last().fee_lamports
    }
}

/// How many records report the given outcome.
pub open spec fn count_outcome(s: Seq<TransactionRecord>, success: bool) -> int
    decreases s.len(),
{
    if s.len() == 0 {
        0
    } else {
        count_outcome(s.drop_last(), success) + if s.last().success == success {
            1int
        } else {
            0int
        }
    }
}

/// Records in timestamp order.
pub open spec fn sorted_by_timestamp(s: Seq<TransactionRecord>) -> bool {
    forall|i: int, j: int| 0 <= i < j < s.len() ==> s[i].timestamp <= s[j].timestamp
}

/// The predicate "the record's timestamp is `t`".
pub open spec fn with_timestamp(t: i64) -> spec_fn(TransactionRecord) -> bool {
    |r: TransactionRecord| r.timestamp == t
}

/// `x` inserted into `s` behind every record whose timestamp is at most
/// `x`'s: the stable insertion position.
pub open spec fn place_after_ties(x: TransactionRecord, s: Seq<TransactionRecord>) -> Seq<
    TransactionRecord,
>
    decreases s.len(),
{
    if s.len() == 0 {
        seq![x]
    } else if s[0].timestamp > x.timestamp {
        seq![x] + s
    } else {
        seq![s[0]] + place_after_ties(x, s.drop_first())
    }
}

/// The records in timestamp order, equal timestamps keeping their input
/// order: each record in turn is placed behind its ties.
pub open spec fn stable_sorted(s: Seq<TransactionRecord>) -> Seq<TransactionRecord>
    decreases s.len(),
{
    if s.len() == 0 {
        Seq::empty()
    } else {
        place_after_ties(s.last(), stable_sorted(s.drop_last()))
    }
}

/// The counts, the fee sum and the sorted record sequence of an analysis
/// agree with each other.
impl FeeAnalysis {
    pub open spec fn wf(self) -> bool {
        &&& self.total_transactions == self.transactions@.len()
        &&& self.successful_transactions == count_outcome(self.transactions@, true)
        &&& self.failed_transactions == count_outcome(self.transactions@, false)
        &&& self.total_fees_lamports == sum_fees(self.transactions@)
        &&& sorted_by_timestamp(self.transactions@)
    }
}

/// Every record counts as successful or failed, never both: the two counts
/// always sum to the record count.
pub proof fn lemma_outcomes_partition(s: Seq<TransactionRecord>)
    ensures
        count_outcome(s, true) + count_outcome(s, false) == s.len(),
    decreases s.len(),
{
    if s.len() > 0 {
        lemma_outcomes_partition(s.drop_last());
    }
}

/// Each outcome count lies between zero and the record count.
proof fn lemma_count_outcome_bounds(s: Seq<TransactionRecord>, success: bool)
    ensures
        0 <= count_outcome(s, success) <= s.len(),
    decreases s.len(),
{
    if s.len() > 0 {
        lemma_count_outcome_bounds(s.drop_last(), success);
    }
}

/// A fee sum is never negative.
proof fn lemma_sum_fees_nonneg(s: Seq<TransactionRecord>)
    ensures
        sum_fees(s) >= 0,
    decreases s.len(),
{
    if s.len() > 0 {
        lemma_sum_fees_nonneg(s.drop_last());
    }
}

/// The fee sum splits at any cut: prefix plus suffix.
proof fn lemma_sum_fees_split(s: Seq<TransactionRecord>, k: int)
    requires
        0 <= k <= s.len(),
    ensures
        sum_fees(s) == sum_fees(s.take(k)) + sum_fees(s.skip(k)),
    decreases s.len() - k,
{
    if k == s.len() {
        assert(s.take(k) =~= s);
        assert(sum_fees(s.skip(k)) == 0);
    } else {
        let d = s.drop_last();
        assert(s.skip(k).drop_last() =~= d.skip(k));
        assert(s.skip(k).last() == s.last());
        lemma_sum_fees_split(d, k);
        assert(d.take(k) =~= s.take(k));
    }
}

/// Removing one record takes exactly its fee out of the sum.
proof fn lemma_sum_fees_remove(s: Seq<TransactionRecord>, j: int)
    requires
        0 <= j < s.len(),
    ensures
        sum_fees(s.remove(j)) == sum_fees(s) - s[j].fee_lamports,
    decreases s.len(),
{
    if j == s.len() - 1 {
        assert(s.remove(j) =~= s.drop_last());
    } else {
        let d = s.drop_last();
        assert(s.remove(j).drop_last() =~= d.remove(j));
        assert(s.remove(j).last() == s.last());
        lemma_sum_fees_remove(d, j);
    }
}

/// Removing one record takes exactly its contribution out of an outcome
/// count.
proof fn lemma_count_outcome_remove(s: Seq<TransactionRecord>, j: int, success: bool)
    requires
        0 <= j < s.len(),
    ensures
        count_outcome(s.remove(j), success) == count_outcome(s, success) - (if s[j].success
            == success {
            1int
        } else {
            0int
        }),
    decreases s.len(),
{
    if j == s.len() - 1 {
        assert(s.remove(j) =~= s.drop_last());
    } else {
        let d = s.drop_last();
        assert(s.remove(j).drop_last() =~= d.remove(j));
        assert(s.remove(j).last() == s.last());
        lemma_count_outcome_remove(d, j, success);
    }
}

/// An outcome count is the same for any permutation of the records.
pub proof fn lemma_count_outcome_permutation(
    s1: Seq<TransactionRecord>,
    s2: Seq<TransactionRecord>,
    success: bool,
)
    requires
        s1.to_multiset() == s2.to_multiset(),
    ensures
        count_outcome(s1, success) == count_outcome(s2, success),
    decreases s1.len(),
{
    broadcast use vstd::seq_lib::group_seq_properties;

    s1.to_multiset_ensures();
    s2.to_multiset_ensures();
    if s1.len() == 0 {
        assert(s2.to_multiset().len() == 0);
        assert(s2.len() == 0);
    } else {
        let x = s1.last();
        let d1 = s1.drop_last();
        assert(d1.push(x) =~= s1);
        assert(s1.to_multiset() == d1.to_multiset().insert(x));
        assert(s1.to_multiset().count(x) > 0);
        assert(s2.to_multiset().count(x) > 0);
        assert(s2.contains(x));
        let j = choose|j: int| 0 <= j < s2.len() && s2[j] == x;
        let d2 = s2.remove(j);
        assert(d2.to_multiset() =~= s2.to_multiset().remove(x));
        assert(d1.to_multiset() =~= s1.to_multiset().remove(x));
        lemma_count_outcome_permutation(d1, d2, success);
        lemma_count_outcome_remove(s2, j, success);
    }
}

/// The total fee is the same for any permutation of the records: aggregation
/// order does not matter.
pub proof fn lemma_sum_fees_permutation(s1: Seq<TransactionRecord>, s2: Seq<TransactionRecord>)
    requires
        s1.to_multiset() == s2.to_multiset(),
    ensures
        sum_fees(s1) == sum_fees(s2),
    decreases s1.len(),
{
    broadcast use vstd::seq_lib::group_seq_properties;

    s1.to_multiset_ensures();
    s2.to_multiset_ensures();
    if s1.len() == 0 {
        assert(s2.to_multiset().len() == 0);
        assert(s2.len() == 0);
    } else {
        let x = s1.last();
        let d1 = s1.drop_last();
        assert(d1.push(x) =~= s1);
        assert(s1.to_multiset() == d1.to_multiset().insert(x));
        assert(s1.to_multiset().count(x) > 0);
        assert(s2.to_multiset().count(x) > 0);
        assert(s2.contains(x));
        let j = choose|j: int| 0 <= j < s2.len() && s2[j] == x;
        let d2 = s2.remove(j);
        assert(d2.to_multiset() =~= s2.to_multiset().remove(x));
        assert(d1.to_multiset() =~= s1.to_multiset().remove(x));
        lemma_sum_fees_permutation(d1, d2);
        lemma_sum_fees_remove(s2, j);
    }
}

/// Placing a record never loses or reorders anyone: it yields one more
/// element, the multiset grows by the placed record, and order among the
/// others is kept (shown through the filter lemmas below).
proof fn lemma_place_len(x: TransactionRecord, s: Seq<TransactionRecord>)
    ensures
        place_after_ties(x, s).len() == s.len() + 1,
    decreases s.len(),
{
    if s.len() > 0 && !(s[0].timestamp > x.timestamp) {
        lemma_place_len(x, s.drop_first());
    }
}

proof fn lemma_place_multiset(x: TransactionRecord, s: Seq<TransactionRecord>)
    ensures
        place_after_ties(x, s).to_multiset() == s.to_multiset().insert(x),
    decreases s.len(),
{
    broadcast use vstd::seq_lib::group_seq_properties;

    if s.len() == 0 {
        assert(seq![x] =~= Seq::<TransactionRecord>::empty().push(x));
        Seq::<TransactionRecord>::empty().to_multiset_ensures();
        assert(place_after_ties(x, s).to_multiset() =~= s.to_multiset().insert(x));
    } else if s[0].timestamp > x.timestamp {
        lemma_multiset_of_cons(x, s);
    } else {
        let s1 = s.drop_first();
        lemma_place_multiset(x, s1);
        lemma_multiset_of_cons(s[0], place_after_ties(x, s1));
        lemma_multiset_of_cons(s[0], s1);
        assert(seq![s[0]] + s1 =~= s);
        assert((seq![s[0]] + place_after_ties(x, s1)).to_multiset() =~= s.to_multiset().insert(x))
            by {
            assert(place_after_ties(x, s1).to_multiset() =~= s1.to_multiset().insert(x));
            assert(s.to_multiset() =~= s1.to_multiset().insert(s[0]));
        }
    }
}

/// Prepending one element inserts it into the multiset.
proof fn lemma_multiset_of_cons(x: TransactionRecord, s: Seq<TransactionRecord>)
    ensures
        (seq![x] + s).to_multiset() == s.to_multiset().insert(x),
    decreases s.len(),
{
    broadcast use vstd::seq_lib::group_seq_properties;

    s.to_multiset_ensures();
    (seq![x] + s).to_multiset_ensures();
    if s.len() == 0 {
        assert(seq![x] + s =~= Seq::<TransactionRecord>::empty().push(x));
        Seq::<TransactionRecord>::empty().to_multiset_ensures();
        assert((seq![x] + s).to_multiset() =~= s.to_multiset().insert(x));
    } else {
        let d = s.drop_last();
        lemma_multiset_of_cons(x, d);
        d.to_multiset_ensures();
        (seq![x] + d).to_multiset_ensures();
        assert((seq![x] + s) =~= (seq![x] + d).push(s.last()));
        assert((seq![x] + s).to_multiset() =~= (seq![x] + d).to_multiset().insert(s.last()));
        assert(s =~= d.push(s.last()));
        assert(s.to_multiset() =~= d.to_multiset().insert(s.last()));
        assert((seq![x] + s).to_multiset() =~= s.to_multiset().insert(x)) by {
            assert((seq![x] + d).to_multiset() =~= d.to_multiset().insert(x));
            assert(d.to_multiset().insert(x).insert(s.last()) =~= d.to_multiset().insert(
                s.last(),
            ).insert(x));
        }
    }
}

proof fn lemma_place_sorted(x: TransactionRecord, s: Seq<TransactionRecord>)
    requires
        sorted_by_timestamp(s),
    ensures
        sorted_by_timestamp(place_after_ties(x, s)),
    decreases s.len(),
{
    let out = place_after_ties(x, s);
    if s.len() == 0 {
    } else if s[0].timestamp > x.timestamp {
        assert forall|i: int, j: int| 0 <= i < j < out.len() implies out[i].timestamp
            <= out[j].timestamp by {
            if i > 0 {
                assert(out[i] == s[i - 1]);
                assert(out[j] == s[j - 1]);
            }
        }
    } else {
        let s1 = s.drop_first();
        assert(sorted_by_timestamp(s1));
        lemma_place_sorted(x, s1);
        lemma_place_len(x, s1);
        let inner = place_after_ties(x, s1);
        assert forall|i: int, j: int| 0 <= i < j < out.len() implies out[i].timestamp
            <= out[j].timestamp by {
            if i == 0 {
                // out[0] == s[0]; everything in `inner` is either x (whose
                // timestamp is at least s[0]'s) or an element of s1.
                lemma_place_member_bound(x, s1, j - 1);
            } else {
                assert(out[i] == inner[i - 1]);
                assert(out[j] == inner[j - 1]);
            }
        }
    }
}

/// Every element of a placement is either the placed record or one of the
/// originals, so a lower bound on all of them and on `x` bounds them all.
proof fn lemma_place_member_bound(x: TransactionRecord, s: Seq<TransactionRecord>, i: int)
    requires
        0 <= i < place_after_ties(x, s).len(),
    ensures
        place_after_ties(x, s)[i] == x || s.contains(place_after_ties(x, s)[i]),
    decreases s.len(),
{
    let out = place_after_ties(x, s);
    if s.len() == 0 {
    } else if s[0].timestamp > x.timestamp {
        if i > 0 {
            assert(out[i] == s[i - 1]);
        }
    } else {
        let s1 = s.drop_first();
        if i == 0 {
            assert(out[0] == s[0]);
        } else {
            lemma_place_member_bound(x, s1, i - 1);
            assert(out[i] == place_after_ties(x, s1)[i - 1]);
            if place_after_ties(x, s1)[i - 1] != x {
                let k = choose|k: int|
                    0 <= k < s1.len() && s1[k] == place_after_ties(x, s1)[i - 1];
                assert(s[k + 1] == s1[k]);
            }
        }
    }
}

/// How placing a record changes a timestamp filter: the filter for the
/// record's own timestamp gains it at the end, every other filter is
/// untouched.
proof fn lemma_place_filter(x: TransactionRecord, s: Seq<TransactionRecord>, t: i64)
    requires
        sorted_by_timestamp(s),
    ensures
        place_after_ties(x, s).filter(with_timestamp(t)) == if x.timestamp == t {
            s.filter(with_timestamp(t)).push(x)
        } else {
            s.filter(with_timestamp(t))
        },
    decreases s.len(),
{
    broadcast use vstd::seq_lib::group_seq_properties;

    let p = with_timestamp(t);
    let out = place_after_ties(x, s);
    if s.len() == 0 {
        assert(seq![x] =~= Seq::<TransactionRecord>::empty().push(x));
        Seq::<TransactionRecord>::empty().lemma_filter_push(x, p);
        if x.timestamp == t {
            assert(out.filter(p) =~= s.filter(p).push(x));
        } else {
            assert(out.filter(p) =~= s.filter(p));
        }
    } else if s[0].timestamp > x.timestamp {
        Seq::<TransactionRecord>::filter_distributes_over_add(seq![x], s, p);
        assert(seq![x] =~= Seq::<TransactionRecord>::empty().push(x));
        Seq::<TransactionRecord>::empty().lemma_filter_push(x, p);
        if x.timestamp == t {
            // all of s lies strictly after t, so its filter is empty
            lemma_filter_all_absent(s, t);
            assert(out.filter(p) =~= s.filter(p).push(x));
        } else {
            assert(out.filter(p) =~= s.filter(p));
        }
    } else {
        let s1 = s.drop_first();
        assert(sorted_by_timestamp(s1));
        lemma_place_filter(x, s1, t);
        Seq::<TransactionRecord>::filter_distributes_over_add(
            seq![s[0]],
            place_after_ties(x, s1),
            p,
        );
        Seq::<TransactionRecord>::filter_distributes_over_add(seq![s[0]], s1, p);
        assert(seq![s[0]] + s1 =~= s);
        if x.timestamp == t {
            assert(out.filter(p) =~= (seq![s[0]].filter(p) + s1.filter(p)).push(x));
            assert(out.filter(p) =~= s.filter(p).push(x));
        } else {
            assert(out.filter(p) =~= s.filter(p));
        }
    }
}

/// A sorted sequence whose head already lies past `t` holds no record at `t`.
proof fn lemma_filter_all_absent(s: Seq<TransactionRecord>, t: i64)
    requires
        sorted_by_timestamp(s),
        s.len() > 0 ==> s[0].timestamp > t,
    ensures
        s.filter(with_timestamp(t)) == Seq::<TransactionRecord>::empty(),
    decreases s.len(),
{
    broadcast use vstd::seq_lib::group_seq_properties;

    if s.len() > 0 {
        let d = s.drop_last();
        lemma_filter_all_absent(d, t);
        d.lemma_filter_push(s.last(), with_timestamp(t));
        assert(d.push(s.last()) =~= s);
        if s.len() > 1 {
            assert(s.last().timestamp >= s[0].timestamp);
        }
    }
}

/// Sorting is stable: for every timestamp, the records carrying it come out
/// in exactly the order they went in.  Together with sortedness this pins the
/// sorted sequence completely.
pub proof fn lemma_stable_sort_preserves_ties(s: Seq<TransactionRecord>, t: i64)
    ensures
        stable_sorted(s).filter(with_timestamp(t)) == s.filter(with_timestamp(t)),
    decreases s.len(),
{
    broadcast use vstd::seq_lib::group_seq_properties;

    if s.len() > 0 {
        let d = s.drop_last();
        lemma_stable_sort_preserves_ties(d, t);
        lemma_stable_sorted_sorted(d);
        lemma_place_filter(s.last(), stable_sorted(d), t);
        d.lemma_filter_push(s.last(), with_timestamp(t));
        assert(d.push(s.last()) =~= s);
    }
}

/// The sorted sequence is in timestamp order.
pub proof fn lemma_stable_sorted_sorted(s: Seq<TransactionRecord>)
    ensures
        sorted_by_timestamp(stable_sorted(s)),
    decreases s.len(),
{
    if s.len() > 0 {
        lemma_stable_sorted_sorted(s.drop_last());
        lemma_place_sorted(s.last(), stable_sorted(s.drop_last()));
    }
}

/// Sorting keeps exactly the input records.
pub proof fn lemma_stable_sorted_multiset(s: Seq<TransactionRecord>)
    ensures
        stable_sorted(s).to_multiset() == s.to_multiset(),
        stable_sorted(s).len() == s.len(),
    decreases s.len(),
{
    broadcast use vstd::seq_lib::group_seq_properties;

    s.to_multiset_ensures();
    if s.len() == 0 {
    } else {
        let d = s.drop_last();
        lemma_stable_sorted_multiset(d);
        lemma_place_multiset(s.last(), stable_sorted(d));
        lemma_place_len(s.last(), stable_sorted(d));
        d.to_multiset_ensures();
        assert(d.push(s.last()) =~= s);
        assert(s.to_multiset() =~= d.to_multiset().insert(s.last()));
    }
}

/// Inserts `x` into the sorted `out` behind all its ties.
fn insert_record(out: &mut Vec<TransactionRecord>, x: TransactionRecord)
    requires
        sorted_by_timestamp(old(out)@),
    ensures
        final(out)@ == place_after_ties(x, old(out)@),
{
    let ghost s = out@;
    let mut j: usize = 0;
    while j < out.len() && out[j].timestamp <= x.timestamp
        invariant
            s == out@,
            0 <= j <= out@.len(),
            forall|i: int| 0 <= i < j ==> s[i].timestamp <= x.timestamp,
        decreases out@.len() - j,
    {
        j = j + 1;
    }
    proof {
        lemma_place_at_cut(x, s, j as int);
    }
    out.insert(j, x);
    proof {
        assert(s.insert(j as int, x) =~= s.take(j as int) + seq![x] + s.skip(j as int));
    }
}

/// Where the scan stops is where the stable placement puts the record.
proof fn lemma_place_at_cut(x: TransactionRecord, s: Seq<TransactionRecord>, j: int)
    requires
        sorted_by_timestamp(s),
        0 <= j <= s.len(),
        forall|i: int| 0 <= i < j ==> s[i].timestamp <= x.timestamp,
        j < s.len() ==> s[j].timestamp > x.timestamp,
    ensures
        place_after_ties(x, s) == s.take(j) + seq![x] + s.skip(j),
    decreases s.len(),
{
    if s.len() == 0 {
        assert(place_after_ties(x, s) =~= s.take(j) + seq![x] + s.skip(j));
    } else if s[0].timestamp > x.timestamp {
        assert(j == 0);
        assert(place_after_ties(x, s) =~= s.take(0) + seq![x] + s.skip(0));
    } else {
        let s1 = s.drop_first();
        assert(j >= 1);
        assert(sorted_by_timestamp(s1));
        lemma_place_at_cut(x, s1, j - 1);
        assert(place_after_ties(x, s) =~= seq![s[0]] + (s1.take(j - 1) + seq![x] + s1.skip(j
            - 1)));
        assert(seq![s[0]] + (s1.take(j - 1) + seq![x] + s1.skip(j - 1)) =~= s.take(j) + seq![x]
            + s.skip(j));
    }
}

/// Stable-sorts the records by timestamp ascending; records sharing a
/// timestamp keep their relative input order.
pub fn sort_by_timestamp(records: Vec<TransactionRecord>) -> (r: Vec<TransactionRecord>)
    ensures
        r@ == stable_sorted(records@),
        sorted_by_timestamp(r@),
        r@.to_multiset() == records@.to_multiset(),
        r@.len() == records@.len(),
{
    broadcast use vstd::seq_lib::group_seq_properties;

    let mut rest = records;
    let ghost all = rest@;
    let n: usize = rest.len();
    proof {
        assert(all.len() == n);
    }
    let mut out: Vec<TransactionRecord> = Vec::new();
    let mut taken: usize = 0;
    while rest.len() > 0
        invariant
            all.len() <= usize::MAX,
            taken + rest@.len() == all.len(),
            rest@ == all.skip(taken as int),
            out@ == stable_sorted(all.take(taken as int)),
            sorted_by_timestamp(out@),
        decreases rest@.len(),
    {
        let x = rest.remove(0);
        assert(rest@ =~= all.skip(taken + 1));
        proof {
            assert(all.take(taken + 1).drop_last() =~= all.take(taken as int));
            assert(all.take(taken + 1).last() == x);
        }
        insert_record(&mut out, x);
        proof {
            lemma_place_sorted(x, stable_sorted(all.take(taken as int)));
        }
        taken = taken + 1;
    }
    proof {
        assert(all.take(taken as int) =~= all);
        lemma_stable_sorted_sorted(all);
        lemma_stable_sorted_multiset(all);
    }
    out
}

/// Folds the records into the terminal aggregate: the counts, the exact fee
/// sum, the window, and the records sorted by timestamp.  The fee sum must
/// fit the 64-bit fee field; a caller can check that bound against
/// `sum_fees` before calling.
pub fn aggregate(records: Vec<TransactionRecord>, window: &TimeWindow) -> (r: FeeAnalysis)
    requires
        sum_fees(records@) <= u64::MAX,
    ensures
        r.wf(),
        r.total_transactions == records@.len(),
        r.successful_transactions == count_outcome(records@, true),
        r.failed_transactions == count_outcome(records@, false),
        r.successful_transactions + r.failed_transactions == r.total_transactions,
        r.total_fees_lamports == sum_fees(records@),
        r.time_period == *window,
        r.transactions@ == stable_sorted(records@),
{
    broadcast use vstd::seq_lib::group_seq_properties;

    let ghost all = records@;
    let n: usize = records.len();
    let mut total_fees: u64 = 0;
    let mut successes: usize = 0;
    let mut failures: usize = 0;
    let mut i: usize = 0;
    while i < n
        invariant
            n == all.len(),
            n == records@.len(),
            records@ == all,
            0 <= i <= n,
            sum_fees(all) <= u64::MAX,
            total_fees == sum_fees(all.take(i as int)),
            successes == count_outcome(all.take(i as int), true),
            failures == count_outcome(all.take(i as int), false),
        decreases n - i,
    {
        proof {
            assert(all.take(i + 1).drop_last() =~= all.take(i as int));
            assert(all.take(i + 1).last() == all[i as int]);
            lemma_sum_fees_split(all, i + 1);
            lemma_sum_fees_nonneg(all.skip(i + 1));
            lemma_count_outcome_bounds(all.take(i as int), true);
            lemma_count_outcome_bounds(all.take(i as int), false);
        }
        let x = &records[i];
        total_fees = total_fees + x.fee_lamports;
        if x.success {
            successes = successes + 1;
        } else {
            failures = failures + 1;
        }
        i = i + 1;
    }
    proof {
        assert(all.take(n as int) =~= all);
        lemma_outcomes_partition(all);
        lemma_stable_sorted_multiset(all);
        lemma_sum_fees_permutation(stable_sorted(all), all);
        lemma_count_outcome_permutation(stable_sorted(all), all, true);
        lemma_count_outcome_permutation(stable_sorted(all), all, false);
        lemma_stable_sorted_sorted(all);
    }
    let transactions = sort_by_timestamp(records);
    FeeAnalysis {
        total_transactions: n,
        successful_transactions: successes,
        failed_transactions: failures,
        total_fees_lamports: total_fees,
        time_period: *window,
        transactions,
    }
}

/// The mean fee as an exact quotient and remainder of the fee sum by the
/// record count: zero for an empty analysis, and otherwise
/// `q * count + rem == sum` with `rem < count`.  The caller renders the
/// floating-point mean from these.
pub fn average_fee_lamports(a: &FeeAnalysis) -> (r: (u64, u64))
    ensures
        a.total_transactions == 0 ==> r.0 == 0 && r.1 == 0,
        a.total_transactions > 0 ==> {
            &&& r.0 == a.total_fees_lamports as int / a.total_transactions as int
            &&& r.1 == a.total_fees_lamports as int % a.total_transactions as int
            &&& r.0 * a.total_transactions + r.1 == a.total_fees_lamports
            &&& r.1 < a.total_transactions
        },
{
    if a.total_transactions == 0 {
        (0, 0)
    } else {
        let count: u64 = a.total_transactions as u64;
        let q: u64 = a.total_fees_lamports / count;
        let rem: u64 = a.total_fees_lamports % count;
        proof {
            vstd::arithmetic::div_mod::lemma_fundamental_div_mod(
                a.total_fees_lamports as int,
                count as int,
            );
        }
        (q, rem)
    }
}

} // verus!
