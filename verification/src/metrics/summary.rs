//! Open Metrics summary metric.
//!
//! A [`Summary`] tracks an all-time sum and count of observed values and
//! estimates configured quantiles over a sliding time window. The window of
//! `max_age_seconds` is divided into `max_age_buckets` equal slices; one
//! rank sketch per slice ingests every observation, and the sketch under
//! the rotation cursor ("head") answers quantile reads. Each time the head
//! has been active for a full slice, the cursor advances round-robin and
//! the bucket it lands on is reset and re-stamped before ingesting anything
//! further, so that data older than the window stops influencing reported
//! quantiles while sum and count keep accumulating for the metric's whole
//! life.
//!
//! Time enters only through explicit `now_seconds` arguments, so behaviour
//! is deterministic under test; callers supply a wall clock.

use std::sync::Arc;
use vstd::multiset::Multiset;
use vstd::prelude::*;
use vstd::rwlock::{RwLock, RwLockPredicate};

use super::sketch::{
    sorted, sorted_insert, query_spec, QuantileSketch, QUANTILE_SCALE,
    lemma_sorted_insert_multiset, lemma_sorted_insert_sorted,
};
use super::{MetricType, TypedMetric};

verus! {

/// The mathematical state of a summary: all-time totals, the per-bucket
/// sorted sample sequences with their activation stamps, and the read cursor.
#[verifier::ext_equal]
pub struct SummaryModel {
    pub sum: int,
    pub count: nat,
    pub streams: Seq<Seq<i64>>,
    pub stamps: Seq<nat>,
    pub head: nat,
}

impl SummaryModel {
    /// Well-formedness: at least one bucket, a stamp per bucket, the cursor
    /// in range, every bucket sorted, and the totals consistent: the sum of
    /// `count` values each within `i64` range is bounded by `count` times
    /// those extremes.
    pub open spec fn wf(self) -> bool {
        &&& 0 < self.streams.len()
        &&& self.stamps.len() == self.streams.len()
        &&& self.head < self.streams.len()
        &&& (forall|i: int| 0 <= i < self.streams.len() ==> sorted(#[trigger] self.streams[i]))
        &&& self.count * (i64::MIN as int) <= self.sum <= self.count * (i64::MAX as int)
    }
}

/// The state a freshly constructed summary is in: zero totals, every bucket
/// empty and stamped with the creation time, the cursor on bucket 0.
pub open spec fn initial_model(bucket_count: nat, now: nat) -> SummaryModel {
    SummaryModel {
        sum: 0,
        count: 0,
        streams: Seq::new(bucket_count, |i: int| Seq::<i64>::empty()),
        stamps: Seq::new(bucket_count, |i: int| now),
        head: 0,
    }
}

/// The head bucket has been active for a full slice of the window.
pub open spec fn needs_rotation(m: SummaryModel, now: nat, rotate_after: nat) -> bool {
    now >= m.stamps[m.head as int] + rotate_after
}

/// The bucket the cursor moves to next, in round-robin order.
pub open spec fn next_head(m: SummaryModel) -> nat {
    if m.head + 1 == m.streams.len() {
        0
    } else {
        m.head + 1
    }
}

/// One rotation check: where the head bucket has aged a full slice, advance
/// the cursor and reset the newly selected bucket, stamping it `now`;
/// otherwise leave the state unchanged.
pub open spec fn rotate_spec(m: SummaryModel, now: nat, rotate_after: nat) -> SummaryModel {
    if needs_rotation(m, now, rotate_after) {
        let h = next_head(m);
        SummaryModel {
            streams: m.streams.update(h as int, Seq::<i64>::empty()),
            stamps: m.stamps.update(h as int, now),
            head: h,
            ..m
        }
    } else {
        m
    }
}

/// One observation: the rotation check, then the value inserted into every
/// bucket and added to the all-time totals.
pub open spec fn observe_spec(m: SummaryModel, v: i64, now: nat, rotate_after: nat) -> SummaryModel {
    let r = rotate_spec(m, now, rotate_after);
    SummaryModel {
        sum: r.sum + v,
        count: r.count + 1,
        streams: Seq::new(r.streams.len(), |i: int| sorted_insert(r.streams[i], v)),
        ..r
    }
}

/// The (quantile, estimate) pairs a read reports: one pair per requested
/// quantile that the head bucket can answer, in request order; quantiles the
/// bucket cannot answer yet are absent, not zero.
pub open spec fn quantile_pairs(head_stream: Seq<i64>, qs: Seq<u64>) -> Seq<(u64, i64)>
    decreases qs.len(),
{
    if qs.len() == 0 {
        Seq::empty()
    } else {
        let rest = quantile_pairs(head_stream, qs.drop_last());
        match query_spec(head_stream, qs.last() as nat) {
            Some(v) => rest.push((qs.last(), v)),
            None => rest,
        }
    }
}

/// The state after a whole sequence of observations, each a (value,
/// wall-clock time) pair, fed through [`observe_spec`] in order.
pub open spec fn observe_all(
    m: SummaryModel,
    obs: Seq<(i64, nat)>,
    rotate_after: nat,
) -> SummaryModel
    decreases obs.len(),
{
    if obs.len() == 0 {
        m
    } else {
        observe_all(observe_spec(m, obs[0].0, obs[0].1, rotate_after), obs.drop_first(), rotate_after)
    }
}

/// The sum of the observed values of a sequence of observations.
pub open spec fn sum_values(obs: Seq<(i64, nat)>) -> int
    decreases obs.len(),
{
    if obs.len() == 0 {
        0
    } else {
        obs[0].0 + sum_values(obs.drop_first())
    }
}

/// One observation leaves the state well-formed, grows the count by exactly
/// one and the sum by exactly the observed value, and keeps the bucket
/// count.
pub proof fn lemma_observe_spec_totals(m: SummaryModel, v: i64, now: nat, rotate_after: nat)
    requires
        m.wf(),
    ensures
        observe_spec(m, v, now, rotate_after).wf(),
        observe_spec(m, v, now, rotate_after).count == m.count + 1,
        observe_spec(m, v, now, rotate_after).sum == m.sum + v,
        observe_spec(m, v, now, rotate_after).streams.len() == m.streams.len(),
{
    let r = rotate_spec(m, now, rotate_after);
    let o = observe_spec(m, v, now, rotate_after);
    assert forall|i: int| 0 <= i < r.streams.len() implies sorted(#[trigger] r.streams[i]) by {}
    assert forall|i: int| 0 <= i < o.streams.len() implies sorted(#[trigger] o.streams[i]) by {
        lemma_sorted_insert_sorted(r.streams[i], v);
    }
}

/// Sum and count correctness, and their monotonicity: feeding any sequence
/// of observations through a well-formed summary state grows the all-time
/// count by exactly the number of observations and the all-time sum by
/// exactly their total; in particular neither total ever decreases.
pub proof fn lemma_totals_after_observations(
    m: SummaryModel,
    obs: Seq<(i64, nat)>,
    rotate_after: nat,
)
    requires
        m.wf(),
    ensures
        observe_all(m, obs, rotate_after).wf(),
        observe_all(m, obs, rotate_after).count == m.count + obs.len(),
        observe_all(m, obs, rotate_after).sum == m.sum + sum_values(obs),
        observe_all(m, obs, rotate_after).count >= m.count,
        observe_all(m, obs, rotate_after).streams.len() == m.streams.len(),
    decreases obs.len(),
{
    if obs.len() > 0 {
        lemma_observe_spec_totals(m, obs[0].0, obs[0].1, rotate_after);
        lemma_totals_after_observations(
            observe_spec(m, obs[0].0, obs[0].1, rotate_after),
            obs.drop_first(),
            rotate_after,
        );
    }
}

/// Sum and count correctness from birth: a fresh summary through which `N`
/// values are observed reports count exactly `N` and sum exactly their
/// total, whatever the clock did and however rotation interleaved.
pub proof fn lemma_totals_from_start(
    bucket_count: nat,
    created: nat,
    obs: Seq<(i64, nat)>,
    rotate_after: nat,
)
    requires
        0 < bucket_count,
    ensures
        observe_all(initial_model(bucket_count, created), obs, rotate_after).count == obs.len(),
        observe_all(initial_model(bucket_count, created), obs, rotate_after).sum == sum_values(obs),
{
    lemma_totals_after_observations(initial_model(bucket_count, created), obs, rotate_after);
}

/// Feeding a run of observations and then another is the same as feeding
/// their concatenation.
proof fn lemma_observe_all_append(
    m: SummaryModel,
    first: Seq<(i64, nat)>,
    second: Seq<(i64, nat)>,
    rotate_after: nat,
)
    ensures
        observe_all(m, first + second, rotate_after) == observe_all(
            observe_all(m, first, rotate_after),
            second,
            rotate_after,
        ),
    decreases first.len(),
{
    if first.len() == 0 {
        assert(first + second =~= second);
    } else {
        let m1 = observe_spec(m, first[0].0, first[0].1, rotate_after);
        assert((first + second)[0] == first[0]);
        assert((first + second).drop_first() =~= first.drop_first() + second);
        lemma_observe_all_append(m1, first.drop_first(), second, rotate_after);
    }
}

/// The totals are never reset: at any point of any run of observations,
/// the count so far is the count at the end less the observations still to
/// come, and the sum so far differs from the final sum by exactly the
/// values still to come — so across the run the count never decreases and
/// no operation, rotation included, takes anything back out of either
/// total.
pub proof fn lemma_totals_never_reset(
    m: SummaryModel,
    obs: Seq<(i64, nat)>,
    rotate_after: nat,
    i: int,
)
    requires
        m.wf(),
        0 <= i <= obs.len(),
    ensures
        ({
            let part = observe_all(m, obs.take(i), rotate_after);
            let whole = observe_all(m, obs, rotate_after);
            &&& whole.count == part.count + (obs.len() - i)
            &&& whole.sum == part.sum + sum_values(obs.skip(i))
            &&& part.count <= whole.count
        }),
{
    assert(obs.take(i) + obs.skip(i) =~= obs);
    lemma_observe_all_append(m, obs.take(i), obs.skip(i), rotate_after);
    lemma_totals_after_observations(m, obs.take(i), rotate_after);
    lemma_totals_after_observations(
        observe_all(m, obs.take(i), rotate_after),
        obs.skip(i),
        rotate_after,
    );
}

/// Window forgetting, one slice at a time: when an observation finds the
/// head bucket a full slice old, the cursor advances and the bucket it
/// lands on is reset before ingesting, so it carries the fresh value and
/// nothing older — while the all-time totals still include everything.
pub proof fn lemma_rotation_clears_new_head(m: SummaryModel, v: i64, now: nat, rotate_after: nat)
    requires
        m.wf(),
        needs_rotation(m, now, rotate_after),
    ensures
        ({
            let o = observe_spec(m, v, now, rotate_after);
            &&& o.head == next_head(m)
            &&& o.streams[o.head as int] == seq![v]
            &&& o.stamps[o.head as int] == now
            &&& o.sum == m.sum + v
            &&& o.count == m.count + 1
        }),
{
    let o = observe_spec(m, v, now, rotate_after);
    let h = next_head(m) as int;
    assert(rotate_spec(m, now, rotate_after).streams[h] == Seq::<i64>::empty());
    assert(o.streams[h] =~= seq![v]);
}

/// The multiset of values carried by a sequence of observations.
pub open spec fn values_of(obs: Seq<(i64, nat)>) -> Multiset<i64>
    decreases obs.len(),
{
    if obs.len() == 0 {
        Multiset::empty()
    } else {
        values_of(obs.drop_first()).insert(obs[0].0)
    }
}

/// Some observation of the sequence, fed in order from state `m`, rotates
/// the cursor onto bucket `b` and thereby resets it.
pub open spec fn resets_bucket(
    m: SummaryModel,
    obs: Seq<(i64, nat)>,
    rotate_after: nat,
    b: nat,
) -> bool
    decreases obs.len(),
{
    if obs.len() == 0 {
        false
    } else {
        ||| (needs_rotation(m, obs[0].1, rotate_after) && next_head(m) == b)
        ||| resets_bucket(
            observe_spec(m, obs[0].0, obs[0].1, rotate_after),
            obs.drop_first(),
            rotate_after,
            b,
        )
    }
}

/// One observation adds at most its own value to any bucket: the bucket
/// either ingests the value, or is reset first and then holds it alone.
proof fn lemma_observe_spec_bucket_growth(
    m: SummaryModel,
    v: i64,
    now: nat,
    rotate_after: nat,
    b: int,
)
    requires
        m.wf(),
        0 <= b < m.streams.len(),
    ensures
        observe_spec(m, v, now, rotate_after).streams[b].to_multiset().subset_of(
            m.streams[b].to_multiset().insert(v),
        ),
{
    broadcast use vstd::multiset::group_multiset_axioms;
    broadcast use vstd::seq_lib::group_to_multiset_ensures;

    let r = rotate_spec(m, now, rotate_after);
    let o = observe_spec(m, v, now, rotate_after);
    assert(o.streams[b] == sorted_insert(r.streams[b], v));
    lemma_sorted_insert_multiset(r.streams[b], v);
    if needs_rotation(m, now, rotate_after) && next_head(m) == b {
        assert(r.streams[b] == Seq::<i64>::empty());
        assert(Seq::<i64>::empty().to_multiset().len() == 0);
        vstd::multiset::lemma_multiset_empty_len(Seq::<i64>::empty().to_multiset());
        assert(Seq::<i64>::empty().to_multiset() =~= Multiset::<i64>::empty());
        assert forall|x: i64| o.streams[b].to_multiset().count(x) <= m.streams[
            b
        ].to_multiset().insert(v).count(x) by {}
    } else if needs_rotation(m, now, rotate_after) {
        assert(r.streams == m.streams.update(next_head(m) as int, Seq::<i64>::empty()));
        assert(b != next_head(m) as int);
        assert(r.streams[b] == m.streams[b]);
    } else {
        assert(r.streams[b] == m.streams[b]);
    }
}

/// A run of observations adds at most its own values to any bucket.
proof fn lemma_observe_all_bucket_growth(
    m: SummaryModel,
    obs: Seq<(i64, nat)>,
    rotate_after: nat,
    b: int,
)
    requires
        m.wf(),
        0 <= b < m.streams.len(),
    ensures
        observe_all(m, obs, rotate_after).streams[b].to_multiset().subset_of(
            m.streams[b].to_multiset().add(values_of(obs)),
        ),
    decreases obs.len(),
{
    broadcast use vstd::multiset::group_multiset_axioms;

    if obs.len() == 0 {
    } else {
        let m1 = observe_spec(m, obs[0].0, obs[0].1, rotate_after);
        lemma_observe_spec_totals(m, obs[0].0, obs[0].1, rotate_after);
        lemma_observe_spec_bucket_growth(m, obs[0].0, obs[0].1, rotate_after, b);
        lemma_observe_all_bucket_growth(m1, obs.drop_first(), rotate_after, b);
        assert forall|x: i64| observe_all(m, obs, rotate_after).streams[b].to_multiset().count(x)
            <= m.streams[b].to_multiset().add(values_of(obs)).count(x) by {
            assert(values_of(obs).count(x) == values_of(obs.drop_first()).count(x) + (
            if x == obs[0].0 {
                1int
            } else {
                0int
            }));
        }
    }
}

/// Window forgetting: once a run of observations has rotated the cursor
/// onto a bucket — resetting it — that bucket thereafter holds only values
/// of the run; everything observed before the run is gone from it.
pub proof fn lemma_reset_bucket_holds_only_run_values(
    m: SummaryModel,
    obs: Seq<(i64, nat)>,
    rotate_after: nat,
    b: nat,
)
    requires
        m.wf(),
        b < m.streams.len(),
        resets_bucket(m, obs, rotate_after, b),
    ensures
        observe_all(m, obs, rotate_after).streams[b as int].to_multiset().subset_of(
            values_of(obs),
        ),
    decreases obs.len(),
{
    broadcast use vstd::multiset::group_multiset_axioms;
    broadcast use vstd::seq_lib::group_to_multiset_ensures;

    let v0 = obs[0].0;
    let t0 = obs[0].1;
    let m1 = observe_spec(m, v0, t0, rotate_after);
    lemma_observe_spec_totals(m, v0, t0, rotate_after);
    if needs_rotation(m, t0, rotate_after) && next_head(m) == b {
        lemma_rotation_clears_new_head(m, v0, t0, rotate_after);
        assert(m1.streams[b as int] == seq![v0]);
        assert(seq![v0] =~= Seq::<i64>::empty().push(v0));
        assert(m1.streams[b as int].to_multiset() =~= Multiset::<i64>::empty().insert(v0));
        lemma_observe_all_bucket_growth(m1, obs.drop_first(), rotate_after, b as int);
        assert forall|x: i64| observe_all(m, obs, rotate_after).streams[
            b as int
        ].to_multiset().count(x) <= values_of(obs).count(x) by {
            assert(values_of(obs).count(x) == values_of(obs.drop_first()).count(x) + (
            if x == v0 {
                1int
            } else {
                0int
            }));
        }
    } else {
        lemma_reset_bucket_holds_only_run_values(m1, obs.drop_first(), rotate_after, b);
        assert forall|x: i64| observe_all(m, obs, rotate_after).streams[
            b as int
        ].to_multiset().count(x) <= values_of(obs).count(x) by {
            assert(values_of(obs).count(x) == values_of(obs.drop_first()).count(x) + (
            if x == v0 {
                1int
            } else {
                0int
            }));
        }
    }
}

/// Window forgetting at the read path: after a run of observations that has
/// rotated the cursor onto what is then the head bucket, a quantile read —
/// which queries only the head bucket — can see nothing from before the
/// run, while the all-time sum and count still include everything.
pub proof fn lemma_window_forgetting(m: SummaryModel, obs: Seq<(i64, nat)>, rotate_after: nat)
    requires
        m.wf(),
        resets_bucket(m, obs, rotate_after, observe_all(m, obs, rotate_after).head),
    ensures
        ({
            let f = observe_all(m, obs, rotate_after);
            &&& f.streams[f.head as int].to_multiset().subset_of(values_of(obs))
            &&& f.sum == m.sum + sum_values(obs)
            &&& f.count == m.count + obs.len()
        }),
{
    let f = observe_all(m, obs, rotate_after);
    lemma_totals_after_observations(m, obs, rotate_after);
    lemma_reset_bucket_holds_only_run_values(m, obs, rotate_after, f.head);
}

/// The shared, lock-protected inner state of a summary, mutated one
/// observation at a time.
pub struct InnerSummary {
    sum: i128,
    count: u64,
    quantile_streams: Vec<QuantileSketch>,
    stream_stamps: Vec<u64>,
    // The cursor carrying the index of the stream that quantile reads query.
    head_stream: usize,
}

impl View for InnerSummary {
    type V = SummaryModel;

    closed spec fn view(&self) -> SummaryModel {
        SummaryModel {
            sum: self.sum as int,
            count: self.count as nat,
            streams: Seq::new(self.quantile_streams@.len(), |i: int| self.quantile_streams@[i]@),
            stamps: Seq::new(self.stream_stamps@.len(), |i: int| self.stream_stamps@[i] as nat),
            head: self.head_stream as nat,
        }
    }
}

impl InnerSummary {
    /// The state is well-formed as a model.
    pub open spec fn wf(&self) -> bool {
        self@.wf()
    }

    /// A fresh state: `bucket_count` empty sketches stamped `now_seconds`,
    /// zero totals, the cursor on bucket 0.
    pub fn new(bucket_count: usize, now_seconds: u64) -> (s: Self)
        requires
            0 < bucket_count,
        ensures
            s@ == initial_model(bucket_count as nat, now_seconds as nat),
            s.wf(),
    {
        let mut streams: Vec<QuantileSketch> = Vec::new();
        let mut stamps: Vec<u64> = Vec::new();
        let mut i: usize = 0;
        while i < bucket_count
            invariant
                i <= bucket_count,
                streams@.len() == i,
                stamps@.len() == i,
                forall|k: int| 0 <= k < i ==> (#[trigger] streams@[k])@ == Seq::<i64>::empty(),
                forall|k: int| 0 <= k < i ==> #[trigger] stamps@[k] == now_seconds,
            decreases bucket_count - i,
        {
            streams.push(QuantileSketch::new());
            stamps.push(now_seconds);
            i = i + 1;
        }
        let s = InnerSummary {
            sum: 0,
            count: 0,
            quantile_streams: streams,
            stream_stamps: stamps,
            head_stream: 0,
        };
        proof {
            assert(s@ =~~= initial_model(bucket_count as nat, now_seconds as nat));
        }
        s
    }

    /// The all-time number of observations.
    pub fn count(&self) -> (c: u64)
        ensures
            c == self@.count,
    {
        self.count
    }

    /// Ingest one observation at wall-clock time `now_seconds`: perform the
    /// rotation check for a slice width of `rotate_after_seconds`, insert the
    /// value into every bucket, and add it to the all-time totals.
    pub fn observe_at(&mut self, v: i64, now_seconds: u64, rotate_after_seconds: u64)
        requires
            old(self).wf(),
            old(self)@.count < u64::MAX,
        ensures
            final(self)@ == observe_spec(
                old(self)@,
                v,
                now_seconds as nat,
                rotate_after_seconds as nat,
            ),
            final(self).wf(),
            final(self)@.streams.len() == old(self)@.streams.len(),
    {
        let ghost m0 = self@;
        let head = self.head_stream;
        let stamp = self.stream_stamps[head];
        if now_seconds >= stamp && now_seconds - stamp >= rotate_after_seconds {
            let n = self.quantile_streams.len();
            let new_head = if head + 1 == n {
                0
            } else {
                head + 1
            };
            self.quantile_streams[new_head].reset();
            let st = &mut self.stream_stamps[new_head];
            *st = now_seconds;
            self.head_stream = new_head;
        }
        let ghost m1 = self@;
        proof {
            assert(m1 =~~= rotate_spec(m0, now_seconds as nat, rotate_after_seconds as nat));
        }
        self.sum = self.sum + (v as i128);
        self.count = self.count + 1;
        let ghost m2 = self@;
        let len = self.quantile_streams.len();
        let mut i: usize = 0;
        while i < len
            invariant
                i <= len,
                len == m2.streams.len(),
                self@.sum == m2.sum,
                self@.count == m2.count,
                self@.stamps == m2.stamps,
                self@.head == m2.head,
                self@.streams.len() == len,
                forall|k: int| 0 <= k < len ==> sorted(#[trigger] m2.streams[k]),
                forall|k: int| i <= k < len ==> #[trigger] self@.streams[k] == m2.streams[k],
                forall|k: int| 0 <= k < i ==> #[trigger] self@.streams[k] == sorted_insert(
                    m2.streams[k],
                    v,
                ),
            decreases len - i,
        {
            let ghost pre = self.quantile_streams@;
            proof {
                assert forall|k: int| 0 <= k < len implies #[trigger] pre[k]@
                    == self@.streams[k] by {}
                assert(sorted(pre[i as int]@));
            }
            let sk = &mut self.quantile_streams[i];
            sk.insert(v);
            proof {
                assert forall|k: int| 0 <= k < len implies #[trigger] self@.streams[k]
                    == self.quantile_streams@[k]@ by {}
                assert forall|k: int| 0 <= k < len && k != i implies #[trigger] self.quantile_streams@[k]
                    == pre[k] by {}
                assert(self@.streams[i as int] == sorted_insert(m2.streams[i as int], v));
            }
            i = i + 1;
        }
        proof {
            assert(self@ =~~= observe_spec(
                m0,
                v,
                now_seconds as nat,
                rotate_after_seconds as nat,
            ));
            assert forall|k: int| 0 <= k < len implies sorted(#[trigger] self@.streams[k]) by {
                lemma_sorted_insert_sorted(m2.streams[k], v);
            }
        }
    }

    /// Read the all-time sum and count, and the quantile estimates that the
    /// head bucket can answer for the requested quantiles.
    pub fn get(&self, quantiles: &Vec<u64>) -> (r: (i128, u64, Vec<(u64, i64)>))
        requires
            self.wf(),
            forall|k: int|
                0 <= k < quantiles@.len() ==> 0 < #[trigger] quantiles@[k] < QUANTILE_SCALE,
        ensures
            r.0 == self@.sum,
            r.1 == self@.count,
            r.2@ == quantile_pairs(self@.streams[self@.head as int], quantiles@),
    {
        let mut pairs: Vec<(u64, i64)> = Vec::new();
        let head = self.head_stream;
        let sk = &self.quantile_streams[head];
        let ghost hs = self@.streams[self@.head as int];
        let mut i: usize = 0;
        while i < quantiles.len()
            invariant
                i <= quantiles@.len(),
                sk@ == hs,
                sk.wf(),
                forall|k: int|
                    0 <= k < quantiles@.len() ==> 0 < #[trigger] quantiles@[k] < QUANTILE_SCALE,
                pairs@ == quantile_pairs(hs, quantiles@.take(i as int)),
            decreases quantiles@.len() - i,
        {
            let q = quantiles[i];
            match sk.query(q) {
                Some(v) => pairs.push((q, v)),
                None => {},
            }
            proof {
                assert(quantiles@.take(i as int + 1).drop_last() =~= quantiles@.take(i as int));
                assert(quantiles@.take(i as int + 1).last() == quantiles@[i as int]);
            }
            i = i + 1;
        }
        proof {
            assert(quantiles@.take(quantiles@.len() as int) =~= quantiles@);
        }
        (self.sum, self.count, pairs)
    }
}

/// Why a summary configuration was rejected at construction.
#[derive(Clone, Copy, Debug, PartialEq, Eq, Structural)]
pub enum ConfigError {
    /// The bucket count was zero.
    InvalidBucketCount,
    /// A requested quantile was not strictly between 0 and 1.
    InvalidQuantile,
    /// The error tolerance was not positive.
    InvalidTargetError,
}

/// Every requested quantile lies strictly between 0 and 1.
pub open spec fn quantiles_valid(qs: Seq<u64>) -> bool {
    forall|k: int| 0 <= k < qs.len() ==> 0 < #[trigger] qs[k] < QUANTILE_SCALE
}

/// A configuration a summary can be constructed with.
pub open spec fn config_valid(bucket_count: u64, qs: Seq<u64>, target_error: u64) -> bool {
    0 < bucket_count && quantiles_valid(qs) && 0 < target_error
}

/// The invariant the lock maintains: the inner state is well-formed and
/// keeps the bucket count it was constructed with.
pub struct SummaryPred {
    pub bucket_count: nat,
}

impl RwLockPredicate<InnerSummary> for SummaryPred {
    open spec fn inv(self, v: InnerSummary) -> bool {
        v.wf() && v@.streams.len() == self.bucket_count
    }
}

/// Open Metrics summary metric: a shareable handle over lock-protected
/// state. Cloning the handle shares the same underlying state; every clone
/// observes into and reads from the one inner summary.
///
/// One lock guards the whole inner state, and everything done while holding
/// it is verified panic-free, so a critical section can neither fail midway
/// nor leave the state half-rotated for the next caller.
pub struct Summary {
    target_quantile: Vec<u64>,
    target_error: u64,
    max_age_buckets: u64,
    max_age_seconds: u64,
    inner: Arc<RwLock<InnerSummary, SummaryPred>>,
}

impl Summary {
    /// The quantiles the summary reports, each in parts per million.
    pub closed spec fn spec_quantiles(&self) -> Seq<u64> {
        self.target_quantile@
    }

    /// The configured rank-error tolerance, in parts per million.
    pub closed spec fn spec_target_error(&self) -> u64 {
        self.target_error
    }

    /// The configured number of rotating buckets.
    pub closed spec fn spec_max_age_buckets(&self) -> u64 {
        self.max_age_buckets
    }

    /// The configured window span in seconds.
    pub closed spec fn spec_max_age_seconds(&self) -> u64 {
        self.max_age_seconds
    }

    /// Both handles share one underlying state: an observation through
    /// either is seen by reads through the other.
    pub closed spec fn shares_state_with(&self, other: &Summary) -> bool {
        self.inner == other.inner
    }

    #[verifier::type_invariant]
    spec fn type_inv(&self) -> bool {
        &&& config_valid(self.max_age_buckets, self.target_quantile@, self.target_error)
        &&& self.max_age_buckets <= usize::MAX as u64
        &&& self.inner.pred() == (SummaryPred { bucket_count: self.max_age_buckets as nat })
    }

    /// Construct a summary of `max_age_buckets` rotating buckets over a
    /// window of `max_age_seconds`, reporting `target_quantile` (each in
    /// parts per million, strictly between 0 and [`QUANTILE_SCALE`]) with
    /// rank-error tolerance `target_error` (parts per million, positive).
    /// The buckets start empty, stamped with `now_seconds`; the all-time sum
    /// and count start at zero. A malformed configuration is rejected, never
    /// clamped.
    pub fn new(
        max_age_buckets: u64,
        max_age_seconds: u64,
        target_quantile: Vec<u64>,
        target_error: u64,
        now_seconds: u64,
    ) -> (r: Result<Summary, ConfigError>)
        requires
            max_age_buckets <= usize::MAX as u64,
        ensures
            r is Ok <==> config_valid(max_age_buckets, target_quantile@, target_error),
            max_age_buckets == 0 ==> r == Err::<Summary, ConfigError>(
                ConfigError::InvalidBucketCount,
            ),
            max_age_buckets > 0 && !quantiles_valid(target_quantile@) ==> r == Err::<
                Summary,
                ConfigError,
            >(ConfigError::InvalidQuantile),
            max_age_buckets > 0 && quantiles_valid(target_quantile@) && target_error == 0 ==> r
                == Err::<Summary, ConfigError>(ConfigError::InvalidTargetError),
            r matches Ok(s) ==> {
                &&& s.spec_quantiles() == target_quantile@
                &&& s.spec_target_error() == target_error
                &&& s.spec_max_age_buckets() == max_age_buckets
                &&& s.spec_max_age_seconds() == max_age_seconds
            },
    {
        if max_age_buckets == 0 {
            return Err(ConfigError::InvalidBucketCount);
        }
        let mut i: usize = 0;
        while i < target_quantile.len()
            invariant
                0 < max_age_buckets,
                i <= target_quantile@.len(),
                forall|k: int| 0 <= k < i ==> 0 < #[trigger] target_quantile@[k] < QUANTILE_SCALE,
            decreases target_quantile@.len() - i,
        {
            let q = target_quantile[i];
            if q == 0 || q >= QUANTILE_SCALE {
                return Err(ConfigError::InvalidQuantile);
            }
            i = i + 1;
        }
        if target_error == 0 {
            return Err(ConfigError::InvalidTargetError);
        }
        let inner = InnerSummary::new(max_age_buckets as usize, now_seconds);
        let ghost pred = SummaryPred { bucket_count: max_age_buckets as nat };
        let lock = RwLock::<InnerSummary, SummaryPred>::new(inner, Ghost(pred));
        Ok(
            Summary {
                target_quantile,
                target_error,
                max_age_buckets,
                max_age_seconds,
                inner: Arc::new(lock),
            },
        )
    }

    /// Ingest one observation at wall-clock time `now_seconds`, under the
    /// lock: the rotation check for a slice of `max_age_seconds /
    /// max_age_buckets`, then the value into every bucket and the all-time
    /// totals. Concurrent callers are serialized by the lock, so no
    /// observation is lost; once the all-time count has reached `u64::MAX`
    /// the state is left unchanged. The handle itself is not altered.
    pub fn observe(&mut self, v: i64, now_seconds: u64)
        ensures
            *final(self) == *old(self),
    {
        proof {
            use_type_invariant(&*self);
        }
        let rotate_after = self.max_age_seconds / self.max_age_buckets;
        let (mut inner, handle) = self.inner.acquire_write();
        if inner.count() < u64::MAX {
            inner.observe_at(v, now_seconds, rotate_after);
        }
        handle.release_write(inner);
    }

    /// Read the all-time sum and count and the answerable quantile
    /// estimates, under the lock. The result reflects one well-formed state
    /// of the shared summary: its exact sum and count, and for each
    /// requested quantile in request order the head bucket's answer, with
    /// unanswerable quantiles absent.
    pub fn get(&self) -> (r: (i128, u64, Vec<(u64, i64)>))
        ensures
            exists|m: SummaryModel|
                {
                    &&& #[trigger] m.wf()
                    &&& m.streams.len() == self.spec_max_age_buckets()
                    &&& r.0 == m.sum
                    &&& r.1 == m.count
                    &&& r.2@ == quantile_pairs(m.streams[m.head as int], self.spec_quantiles())
                },
    {
        proof {
            use_type_invariant(self);
        }
        let read_handle = self.inner.acquire_read();
        let inner = read_handle.borrow();
        let r = inner.get(&self.target_quantile);
        proof {
            let m = inner@;
            assert(m.wf() && m.streams.len() == self.spec_max_age_buckets() && r.0 == m.sum && r.1
                == m.count && r.2@ == quantile_pairs(m.streams[m.head as int], self.spec_quantiles()));
        }
        read_handle.release_read();
        r
    }
}

impl Clone for Summary {
    /// A clone is a new handle on the same summary, not a new summary: it
    /// shares the underlying state with the handle it was cloned from.
    fn clone(&self) -> (r: Self)
        ensures
            r.shares_state_with(self),
            r.spec_quantiles() == self.spec_quantiles(),
            r.spec_target_error() == self.spec_target_error(),
            r.spec_max_age_buckets() == self.spec_max_age_buckets(),
            r.spec_max_age_seconds() == self.spec_max_age_seconds(),
    {
        proof {
            use_type_invariant(self);
        }
        let target_quantile = self.target_quantile.clone();
        proof {
            assert(target_quantile@ =~= self.target_quantile@);
        }
        Summary {
            target_quantile,
            target_error: self.target_error,
            max_age_buckets: self.max_age_buckets,
            max_age_seconds: self.max_age_seconds,
            inner: share_inner(&self.inner),
        }
    }
}

impl TypedMetric for Summary {
    open spec fn spec_metric_type() -> MetricType {
        MetricType::Summary
    }

    fn metric_type() -> (t: MetricType) {
        MetricType::Summary
    }
}

/// Relies on `std::sync::Arc::clone`: the clone is a second owner of the
/// very same allocation, so it carries the same lock.
#[verifier::external_body]
fn share_inner(inner: &Arc<RwLock<InnerSummary, SummaryPred>>) -> (r: Arc<
    RwLock<InnerSummary, SummaryPred>,
>)
    ensures
        r == *inner,
{
    Arc::clone(inner)
}

} // verus!
