//! Cumulative counts under a fixed ascending set of upper bounds.

use crate::implementation::{samples_of, Collected, CollectedInstance, Implementation, SampleV};
use crate::numbers::int_str;
use vstd::prelude::*;
use vstd::string::StringExecFns;

verus! {

/// A histogram: a sum of all observations and, for each upper bound, the
/// count of observations strictly below it. The last bound stands for
/// positive infinity and is stored as `i64::MAX`; its count covers every
/// observation.
pub struct Histogram {
    pub sum: i64,
    pub counts: Vec<(i64, i64)>,
    pub labels: Vec<String>,
}

impl Histogram {
    /// The counts `observe` leaves behind: every bound strictly above
    /// `value` has its count raised by one.
    pub open spec fn bumped(counts: Seq<(i64, i64)>, value: i64) -> Seq<(i64, i64)> {
        counts.map_values(
            |p: (i64, i64)|
                if value < p.0 {
                    (p.0, (p.1 + 1) as i64)
                } else {
                    p
                },
        )
    }

    /// Whether this histogram carries exactly the bucket table that the
    /// ascending `bounds` expand into: each bound in order with a zero
    /// count and its decimal text, then the `i64::MAX` catch-all bucket
    /// labelled `+Inf`, and a zero sum.
    pub open spec fn has_bucket_table(self, bounds: Seq<i64>) -> bool {
        &&& self.sum == 0
        &&& self.counts@.len() == bounds.len() + 1
        &&& forall|i: int|
            0 <= i < bounds.len() ==> (#[trigger] self.counts@[i]).0 == bounds[i]
                && self.counts@[i].1 == 0
        &&& self.counts@.last().0 == i64::MAX && self.counts@.last().1 == 0
        &&& self.labels@.len() == bounds.len() + 1
        &&& forall|i: int|
            0 <= i < bounds.len() ==> (#[trigger] self.labels@[i])@ == int_str(bounds[i] as int)
        &&& self.labels@.last()@ == "+Inf"@
    }

    pub fn new(counts: Vec<(i64, i64)>, labels: Vec<String>) -> (h: Histogram)
        requires
            counts@.len() >= 1,
            labels@.len() == counts@.len(),
            counts@.last().0 == i64::MAX,
            forall|i: int| 0 <= i < counts@.len() ==> (#[trigger] counts@[i]).1 >= 0,
        ensures
            h == (Histogram { sum: 0, counts, labels }),
            h.inv(),
    {
        Histogram { sum: 0, counts, labels }
    }

    /// Records one observation: raises the sum by `value` and the count of
    /// every bound strictly above `value` by one.
    pub fn observe(&mut self, value: i64)
        requires
            old(self).inv(),
            value < i64::MAX,
            i64::MIN <= old(self).sum + value <= i64::MAX,
            forall|i: int|
                0 <= i < old(self).counts@.len() ==> (#[trigger] old(self).counts@[i]).1
                    < i64::MAX,
        ensures
            final(self).sum == old(self).sum + value,
            final(self).counts@ == Self::bumped(old(self).counts@, value),
            final(self).counts@.last().1 == old(self).counts@.last().1 + 1,
            final(self).labels == old(self).labels,
            final(self).inv(),
    {
        self.sum = self.sum + value;
        let ghost start = self.counts@;
        let mut i: usize = 0;
        while i < self.counts.len()
            invariant
                i <= self.counts@.len(),
                self.counts@.len() == start.len(),
                self.sum == old(self).sum + value,
                self.labels == old(self).labels,
                forall|j: int|
                    0 <= j < i ==> #[trigger] self.counts@[j] == Self::bumped(start, value)[j],
                forall|j: int| i <= j < start.len() ==> #[trigger] self.counts@[j] == start[j],
                forall|j: int| 0 <= j < start.len() ==> (#[trigger] start[j]).1 < i64::MAX,
            decreases self.counts@.len() - i,
        {
            proof {
                assert(self.counts@[i as int] == start[i as int]);
            }
            let (upper_bound, v) = self.counts[i];
            if value < upper_bound {
                self.counts[i] = (upper_bound, v + 1);
            }
            i += 1;
        }
        proof {
            assert(self.counts@ =~= Self::bumped(start, value));
        }
    }
}

/// A fresh accumulator carries its prototype's bucket table unchanged: the
/// bounds and their texts are shared by every label combination of the
/// metric, computed once at registration, and every count starts at zero.
pub proof fn lemma_reset_keeps_bucket_table(r: &Histogram, proto: &Histogram, bounds: Seq<i64>)
    requires
        Histogram::is_reset_of(r, proto),
        proto.has_bucket_table(bounds),
    ensures
        r.has_bucket_table(bounds),
{
    assert(r.counts@.last().0 == proto.counts@.last().0);
    assert(r.labels@.last()@ == proto.labels@.last()@);
}

/// With bounds in ascending order the bucket counts are cumulative: an
/// observation below one bound is below every later bound too, so `observe`
/// keeps each later bucket's count at least as large as each earlier one's.
pub proof fn lemma_observe_keeps_counts_cumulative(counts: Seq<(i64, i64)>, value: i64)
    requires
        forall|a: int, b: int|
            0 <= a < b < counts.len() ==> (#[trigger] counts[a]).0 <= (#[trigger] counts[b]).0,
        forall|a: int, b: int|
            0 <= a < b < counts.len() ==> (#[trigger] counts[a]).1 <= (#[trigger] counts[b]).1,
        forall|i: int| 0 <= i < counts.len() ==> (#[trigger] counts[i]).1 < i64::MAX,
    ensures
        forall|a: int, b: int|
            0 <= a < b < counts.len() ==> (#[trigger] Histogram::bumped(counts, value)[a]).1
                <= (#[trigger] Histogram::bumped(counts, value)[b]).1,
{
    assert forall|a: int, b: int|
        0 <= a < b < counts.len() implies (#[trigger] Histogram::bumped(counts, value)[a]).1
        <= (#[trigger] Histogram::bumped(counts, value)[b]).1 by {
        assert(counts[a].0 <= counts[b].0);
        assert(counts[a].1 <= counts[b].1);
    }
}

impl Implementation for Histogram {
    open spec fn inv(&self) -> bool {
        &&& self.counts@.len() >= 1
        &&& self.labels@.len() == self.counts@.len()
        &&& self.counts@.last().0 == i64::MAX
        &&& forall|i: int| 0 <= i < self.counts@.len() ==> (#[trigger] self.counts@[i]).1 >= 0
    }

    open spec fn samples(&self) -> Seq<SampleV> {
        Seq::new(
            (self.counts@.len() - 1) as nat,
            |i: int|
                SampleV {
                    suffix: None,
                    extra: Some(seq![("le"@, self.labels@[i]@)]),
                    value: self.counts@[i].1 as int,
                },
        ) + seq![
            SampleV { suffix: Some("sum"@), extra: None, value: self.sum as int },
            SampleV { suffix: Some("count"@), extra: None, value: self.counts@.last().1 as int },
        ]
    }

    open spec fn kind_name() -> Seq<char> {
        "histogram"@
    }

    open spec fn is_reset_of(r: &Histogram, proto: &Histogram) -> bool {
        &&& r.sum == 0
        &&& r.counts@.len() == proto.counts@.len()
        &&& forall|i: int|
            0 <= i < proto.counts@.len() ==> (#[trigger] r.counts@[i]).0 == proto.counts@[i].0
                && r.counts@[i].1 == 0
        &&& r.labels@.len() == proto.labels@.len()
        &&& forall|i: int|
            0 <= i < proto.labels@.len() ==> (#[trigger] r.labels@[i])@ == proto.labels@[i]@
    }

    fn metric_type() -> (s: &'static str) {
        "histogram"
    }

    fn collect(&self) -> (r: Collected) {
        let mut r: Collected = Vec::new();
        let n = self.counts.len();
        let mut i: usize = 0;
        while i < n - 1
            invariant
                self.inv(),
                n == self.counts@.len(),
                i <= n - 1,
                r@.len() == i,
                forall|j: int| 0 <= j < i ==> #[trigger] r@[j]@ == self.samples()[j],
            decreases n - 1 - i,
        {
            let mut extra: Vec<(String, String)> = Vec::new();
            extra.push((String::from_str("le"), self.labels[i].clone()));
            r.push(CollectedInstance::new(self.counts[i].1, None, Some(extra)));
            proof {
                assert(r@.last()@.extra.unwrap() =~= seq![("le"@, self.labels@[i as int]@)]);
            }
            i += 1;
        }
        r.push(CollectedInstance::new(self.sum, Some(String::from_str("sum")), None));
        let last = self.counts[n - 1].1;
        r.push(CollectedInstance::new(last, Some(String::from_str("count")), None));
        proof {
            assert(samples_of(r@) =~= self.samples());
        }
        r
    }

    fn fresh(&self) -> (r: Histogram) {
        let mut counts: Vec<(i64, i64)> = Vec::new();
        let mut labels: Vec<String> = Vec::new();
        let mut i: usize = 0;
        while i < self.counts.len()
            invariant
                self.inv(),
                i <= self.counts@.len(),
                counts@.len() == i,
                labels@.len() == i,
                forall|j: int|
                    0 <= j < i ==> (#[trigger] counts@[j]).0 == self.counts@[j].0
                        && counts@[j].1 == 0,
                forall|j: int| 0 <= j < i ==> (#[trigger] labels@[j])@ == self.labels@[j]@,
            decreases self.counts@.len() - i,
        {
            counts.push((self.counts[i].0, 0));
            labels.push(self.labels[i].clone());
            i += 1;
        }
        Histogram { sum: 0, counts, labels }
    }
}

} // verus!
