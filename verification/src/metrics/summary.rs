//! A running total together with the number of observations.

use crate::implementation::{samples_of, Collected, CollectedInstance, Implementation, SampleV};
use vstd::prelude::*;
use vstd::string::StringExecFns;

verus! {

/// A summary: the sum of all observed values and their count.
pub struct Summary {
    pub sum: i64,
    pub count: i64,
}

impl Summary {
    pub fn new() -> (s: Summary)
        ensures
            s.sum == 0,
            s.count == 0,
            s.inv(),
    {
        Summary { sum: 0, count: 0 }
    }

    /// Records one observation.
    pub fn observe(&mut self, value: i64)
        requires
            old(self).inv(),
            i64::MIN <= old(self).sum + value <= i64::MAX,
            old(self).count < i64::MAX,
        ensures
            final(self).sum == old(self).sum + value,
            final(self).count == old(self).count + 1,
            final(self).inv(),
    {
        self.sum = self.sum + value;
        self.count = self.count + 1;
    }
}

impl Implementation for Summary {
    open spec fn inv(&self) -> bool {
        self.count >= 0
    }

    open spec fn samples(&self) -> Seq<SampleV> {
        seq![
            SampleV { suffix: Some("sum"@), extra: None, value: self.sum as int },
            SampleV { suffix: Some("count"@), extra: None, value: self.count as int },
        ]
    }

    open spec fn kind_name() -> Seq<char> {
        "summary"@
    }

    open spec fn is_reset_of(r: &Summary, proto: &Summary) -> bool {
        r.sum == 0 && r.count == 0
    }

    fn metric_type() -> (s: &'static str) {
        "summary"
    }

    fn collect(&self) -> (r: Collected) {
        let mut r: Collected = Vec::new();
        r.push(CollectedInstance::new(self.sum, Some(String::from_str("sum")), None));
        r.push(CollectedInstance::new(self.count, Some(String::from_str("count")), None));
        proof {
            assert(samples_of(r@) =~= self.samples());
        }
        r
    }

    fn fresh(&self) -> (r: Summary) {
        Summary { sum: 0, count: 0 }
    }
}

} // verus!
