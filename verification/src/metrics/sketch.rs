//! Rank-estimation sketch over integer observations.
//!
//! A [`QuantileSketch`] ingests a stream of values and answers quantile
//! queries by rank. It keeps its samples in sorted order, so a query returns
//! the value standing exactly at the requested rank: the rank error of every
//! answer is zero, which satisfies any non-negative error tolerance a
//! `Summary` is configured with. The exactness is a trade: unlike a
//! streaming estimator, the sketch keeps every sample since its last reset,
//! so its memory grows with the stream and an insert costs a shift of the
//! sorted store rather than logarithmic work. Within a `Summary` the
//! rotation of buckets bounds how long any one sketch accumulates.
//!
//! Quantiles are expressed in parts per million ([`QUANTILE_SCALE`]), so that
//! the arithmetic of ranks stays in the integers.

use vstd::multiset::Multiset;
use vstd::prelude::*;

verus! {

/// Quantiles and error tolerances are expressed as parts per million:
/// a quantile `q` in (0, 1) is carried as the integer `q * QUANTILE_SCALE`.
pub const QUANTILE_SCALE: u64 = 1000000;

/// A sequence is sorted in non-decreasing order.
pub open spec fn sorted(s: Seq<i64>) -> bool {
    forall|i: int, j: int| 0 <= i <= j < s.len() ==> s[i] <= s[j]
}

/// The sequence obtained by placing `v` immediately before the first element
/// of `s` that exceeds it: the canonical sorted insertion.
pub open spec fn sorted_insert(s: Seq<i64>, v: i64) -> Seq<i64>
    decreases s.len(),
{
    if s.len() == 0 {
        seq![v]
    } else if s[0] <= v {
        seq![s[0]] + sorted_insert(s.drop_first(), v)
    } else {
        seq![v] + s
    }
}

/// The one-based rank targeted by quantile `q_ppm` among `n` samples:
/// the ceiling of `q_ppm * n / QUANTILE_SCALE`.
pub open spec fn target_rank(q_ppm: nat, n: nat) -> nat {
    ((q_ppm * n + (QUANTILE_SCALE - 1)) / (QUANTILE_SCALE as int)) as nat
}

/// What a quantile query over the sorted sample sequence `s` answers:
/// nothing when no sample has arrived, otherwise the sample standing at the
/// target rank.
pub open spec fn query_spec(s: Seq<i64>, q_ppm: nat) -> Option<i64> {
    if s.len() == 0 {
        None
    } else {
        Some(s[target_rank(q_ppm, s.len()) - 1])
    }
}

/// How many elements of `s` are at most `v`.
pub open spec fn count_le(s: Seq<i64>, v: i64) -> nat
    decreases s.len(),
{
    if s.len() == 0 {
        0
    } else {
        count_le(s.drop_last(), v) + (if s.last() <= v { 1nat } else { 0nat })
    }
}

/// How many elements of `s` are strictly below `v`.
pub open spec fn count_lt(s: Seq<i64>, v: i64) -> nat
    decreases s.len(),
{
    if s.len() == 0 {
        0
    } else {
        count_lt(s.drop_last(), v) + (if s.last() < v { 1nat } else { 0nat })
    }
}

/// A memory-resident sketch of every value inserted since it was created or
/// last reset, kept sorted so queries answer by exact rank.
pub struct QuantileSketch {
    values: Vec<i64>,
}

impl View for QuantileSketch {
    type V = Seq<i64>;

    closed spec fn view(&self) -> Seq<i64> {
        self.values@
    }
}

impl QuantileSketch {
    /// The sketch's samples are held in sorted order.
    pub open spec fn wf(&self) -> bool {
        sorted(self@)
    }

    /// An empty sketch.
    pub fn new() -> (s: Self)
        ensures
            s@ == Seq::<i64>::empty(),
            s.wf(),
    {
        QuantileSketch { values: Vec::new() }
    }

    /// How many samples the sketch currently holds.
    pub fn len(&self) -> (n: usize)
        ensures
            n == self@.len(),
    {
        self.values.len()
    }

    /// Forget every sample, returning the sketch to its freshly-created state.
    pub fn reset(&mut self)
        ensures
            final(self)@ == Seq::<i64>::empty(),
            final(self).wf(),
    {
        self.values.clear();
    }

    /// Ingest one value, keeping the samples sorted: the multiset of
    /// samples grows by exactly the new value.
    pub fn insert(&mut self, v: i64)
        requires
            old(self).wf(),
        ensures
            final(self)@ == sorted_insert(old(self)@, v),
            final(self).wf(),
            final(self)@.len() == old(self)@.len() + 1,
            final(self)@.to_multiset() == old(self)@.to_multiset().insert(v),
    {
        let ghost s = self.values@;
        let mut i: usize = 0;
        while i < self.values.len() && self.values[i] <= v
            invariant
                self.values@ == s,
                0 <= i <= s.len(),
                forall|k: int| 0 <= k < i ==> s[k] <= v,
            decreases s.len() - i,
        {
            i = i + 1;
        }
        self.values.insert(i, v);
        proof {
            lemma_sorted_insert_at(s, v, i as int);
            lemma_sorted_insert_len(s, v);
            lemma_sorted_insert_sorted(s, v);
            lemma_sorted_insert_multiset(s, v);
        }
    }

    /// Answer the quantile `q_ppm`: the value standing at the target rank,
    /// or nothing while no sample has arrived.
    pub fn query(&self, q_ppm: u64) -> (r: Option<i64>)
        requires
            self.wf(),
            0 < q_ppm < QUANTILE_SCALE,
        ensures
            r == query_spec(self@, q_ppm as nat),
    {
        let n = self.values.len();
        if n == 0 {
            return None;
        }
        proof {
            assert((q_ppm as int) * (n as int) + 999999 < u128::MAX) by (nonlinear_arith)
                requires
                    0 <= q_ppm < 1000000,
                    0 <= n <= 18446744073709551615,
            ;
        }
        let num: u128 = (q_ppm as u128) * (n as u128) + ((QUANTILE_SCALE - 1) as u128);
        let rank: u128 = num / (QUANTILE_SCALE as u128);
        proof {
            lemma_target_rank_bounds(q_ppm as nat, n as nat);
        }
        let idx: usize = (rank as usize) - 1;
        Some(self.values[idx])
    }
}

/// The target rank of a valid quantile over a non-empty sample set is itself
/// a valid one-based rank.
pub proof fn lemma_target_rank_bounds(q_ppm: nat, n: nat)
    requires
        0 < q_ppm < QUANTILE_SCALE,
        0 < n,
    ensures
        1 <= target_rank(q_ppm, n) <= n,
{
    let s = QUANTILE_SCALE as int;
    let num = q_ppm * n + s - 1;
    assert(q_ppm * n >= 1 && q_ppm * n <= (s - 1) * n) by (nonlinear_arith)
        requires
            0 < q_ppm <= s - 1,
            0 < n,
    ;
    assert(num / s >= 1);
    assert((s * n + s - 1) / s == n) by (nonlinear_arith)
        requires
            s == QUANTILE_SCALE as int,
            n > 0,
    ;
    vstd::arithmetic::div_mod::lemma_div_is_ordered(num, s * n + s - 1, s);
}

/// Quantile ordering: over one sorted, non-empty sample set, a smaller
/// quantile never answers a larger value than a bigger quantile.
pub proof fn lemma_quantile_ordering(s: Seq<i64>, q1: nat, q2: nat)
    requires
        sorted(s),
        0 < s.len(),
        0 < q1 <= q2 < QUANTILE_SCALE,
    ensures
        query_spec(s, q1) is Some,
        query_spec(s, q2) is Some,
        query_spec(s, q1)->Some_0 <= query_spec(s, q2)->Some_0,
{
    let n = s.len();
    lemma_target_rank_bounds(q1, n);
    lemma_target_rank_bounds(q2, n);
    assert(q1 * n <= q2 * n) by (nonlinear_arith)
        requires
            q1 <= q2,
            n >= 0,
    ;
    let sc = QUANTILE_SCALE as int;
    vstd::arithmetic::div_mod::lemma_div_is_ordered(
        q1 * n + sc - 1,
        q2 * n + sc - 1,
        sc,
    );
}

/// No more elements stand strictly below `v` than at or below it, and no
/// more than the sequence holds.
pub proof fn lemma_count_bounds(s: Seq<i64>, v: i64)
    ensures
        count_lt(s, v) <= count_le(s, v) <= s.len(),
    decreases s.len(),
{
    if s.len() > 0 {
        lemma_count_bounds(s.drop_last(), v);
    }
}

/// Where every element is at most `v`, all of them are counted.
proof fn lemma_count_le_all(s: Seq<i64>, v: i64)
    requires
        forall|i: int| 0 <= i < s.len() ==> s[i] <= v,
    ensures
        count_le(s, v) == s.len(),
    decreases s.len(),
{
    if s.len() > 0 {
        lemma_count_le_all(s.drop_last(), v);
    }
}

/// In a sorted sequence, the element at index `k` has at most `k` elements
/// strictly below it and at least `k + 1` elements at or below it: its true
/// rank interval contains the one-based rank `k + 1`.
pub proof fn lemma_sorted_rank_position(s: Seq<i64>, k: int)
    requires
        sorted(s),
        0 <= k < s.len(),
    ensures
        count_lt(s, s[k]) <= k,
        k + 1 <= count_le(s, s[k]),
    decreases s.len(),
{
    let v = s[k];
    if k == s.len() - 1 {
        lemma_count_bounds(s.drop_last(), v);
        lemma_count_le_all(s.drop_last(), v);
    } else {
        lemma_sorted_rank_position(s.drop_last(), k);
    }
}

/// Bounded error: a query for quantile `q_ppm` answers the sample standing
/// exactly at the target rank, so its true rank interval contains that rank;
/// the rank error is zero and in particular within `err_ppm * n /
/// QUANTILE_SCALE` ranks for every tolerance `err_ppm`.
pub proof fn lemma_bounded_rank_error(s: Seq<i64>, q_ppm: nat, err_ppm: nat)
    requires
        sorted(s),
        0 < s.len(),
        0 < q_ppm < QUANTILE_SCALE,
    ensures
        query_spec(s, q_ppm) is Some,
        ({
            let r = target_rank(q_ppm, s.len()) as int;
            let v = query_spec(s, q_ppm)->Some_0;
            let slack = (err_ppm * s.len()) / (QUANTILE_SCALE as nat);
            &&& count_lt(s, v) < r <= count_le(s, v)
            &&& count_lt(s, v) <= r - 1 + slack
            &&& r <= count_le(s, v) + slack
        }),
{
    lemma_target_rank_bounds(q_ppm, s.len());
    let r = target_rank(q_ppm, s.len()) as int;
    lemma_sorted_rank_position(s, r - 1);
}

/// `sorted_insert` grows the sequence by exactly one element.
pub proof fn lemma_sorted_insert_len(s: Seq<i64>, v: i64)
    ensures
        sorted_insert(s, v).len() == s.len() + 1,
    decreases s.len(),
{
    if s.len() > 0 && s[0] <= v {
        lemma_sorted_insert_len(s.drop_first(), v);
    }
}

/// `sorted_insert` keeps a sorted sequence sorted.
pub proof fn lemma_sorted_insert_sorted(s: Seq<i64>, v: i64)
    requires
        sorted(s),
    ensures
        sorted(sorted_insert(s, v)),
    decreases s.len(),
{
    if s.len() > 0 && s[0] <= v {
        lemma_sorted_insert_sorted(s.drop_first(), v);
        lemma_sorted_insert_len(s.drop_first(), v);
        let r = sorted_insert(s, v);
        let rr = sorted_insert(s.drop_first(), v);
        assert forall|i: int, j: int| 0 <= i <= j < r.len() implies r[i] <= r[j] by {
            if i == 0 && j > 0 {
                if rr.len() > 0 {
                    lemma_sorted_insert_first(s.drop_first(), v);
                }
            }
        }
    }
}

/// The first element of a sorted insertion is the smaller of `v` and the
/// sequence's own first element.
proof fn lemma_sorted_insert_first(s: Seq<i64>, v: i64)
    ensures
        sorted_insert(s, v).len() > 0,
        s.len() == 0 ==> sorted_insert(s, v)[0] == v,
        s.len() > 0 && s[0] <= v ==> sorted_insert(s, v)[0] == s[0],
        s.len() > 0 && s[0] > v ==> sorted_insert(s, v)[0] == v,
    decreases s.len(),
{
    lemma_sorted_insert_len(s, v);
}

/// Inserting into a sorted sequence adds the new value to its multiset of
/// samples and changes nothing else.
pub proof fn lemma_sorted_insert_multiset(s: Seq<i64>, v: i64)
    ensures
        sorted_insert(s, v).to_multiset() == s.to_multiset().insert(v),
    decreases s.len(),
{
    broadcast use vstd::seq_lib::group_to_multiset_ensures;

    if s.len() == 0 {
        assert(sorted_insert(s, v) =~= Seq::<i64>::empty().push(v));
        assert(Seq::<i64>::empty().push(v).to_multiset() =~= s.to_multiset().insert(v));
    } else if s[0] <= v {
        lemma_sorted_insert_multiset(s.drop_first(), v);
        lemma_sorted_insert_len(s.drop_first(), v);
        let rr = sorted_insert(s.drop_first(), v);
        assert(sorted_insert(s, v) =~= seq![s[0]] + rr);
        vstd::seq_lib::lemma_multiset_commutative(seq![s[0]], rr);
        vstd::seq_lib::lemma_multiset_commutative(seq![s[0]], s.drop_first());
        assert(s =~= seq![s[0]] + s.drop_first());
        assert(seq![s[0]].to_multiset() =~= Multiset::<i64>::empty().insert(s[0]));
        assert(sorted_insert(s, v).to_multiset() =~= s.to_multiset().insert(v));
    } else {
        assert(sorted_insert(s, v) =~= seq![v] + s);
        vstd::seq_lib::lemma_multiset_commutative(seq![v], s);
        assert(seq![v].to_multiset() =~= Multiset::<i64>::empty().insert(v));
        assert(sorted_insert(s, v).to_multiset() =~= s.to_multiset().insert(v));
    }
}

/// Where the first `i` elements are at most `v` and the element at `i` (if
/// any) exceeds it, the sorted insertion is exactly an insertion at index `i`.
proof fn lemma_sorted_insert_at(s: Seq<i64>, v: i64, i: int)
    requires
        0 <= i <= s.len(),
        forall|k: int| 0 <= k < i ==> s[k] <= v,
        i < s.len() ==> s[i] > v,
    ensures
        sorted_insert(s, v) == s.insert(i, v),
    decreases s.len(),
{
    if s.len() == 0 {
        assert(sorted_insert(s, v) =~= s.insert(0, v));
    } else if s[0] <= v {
        lemma_sorted_insert_at(s.drop_first(), v, i - 1);
        assert(sorted_insert(s, v) =~= s.insert(i, v));
    } else {
        assert(sorted_insert(s, v) =~= s.insert(0, v));
    }
}

} // verus!
