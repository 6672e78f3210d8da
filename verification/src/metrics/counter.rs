//! A monotonically growing total.

use crate::implementation::{samples_of, Collected, CollectedInstance, Implementation, SampleV};
use vstd::prelude::*;

verus! {

/// A counter: a sum that never decreases and never goes below zero.
pub struct Counter {
    pub sum: i64,
}

impl Counter {
    pub fn new() -> (c: Counter)
        ensures
            c.sum == 0,
            c.inv(),
    {
        Counter { sum: 0 }
    }

    /// Adds one to the total.
    pub fn inc(&mut self)
        requires
            old(self).inv(),
            old(self).sum < i64::MAX,
        ensures
            final(self).sum == old(self).sum + 1,
            final(self).inv(),
    {
        self.add(1);
    }

    /// Adds a non-negative amount to the total.
    pub fn add(&mut self, value: i64)
        requires
            old(self).inv(),
            0 <= value,
            old(self).sum + value <= i64::MAX,
        ensures
            final(self).sum == old(self).sum + value,
            final(self).inv(),
    {
        self.sum = self.sum + value;
    }
}

impl Implementation for Counter {
    open spec fn inv(&self) -> bool {
        self.sum >= 0
    }

    open spec fn samples(&self) -> Seq<SampleV> {
        seq![SampleV { suffix: None, extra: None, value: self.sum as int }]
    }

    open spec fn kind_name() -> Seq<char> {
        "counter"@
    }

    open spec fn is_reset_of(r: &Counter, proto: &Counter) -> bool {
        r.sum == 0
    }

    fn metric_type() -> (s: &'static str) {
        "counter"
    }

    fn collect(&self) -> (r: Collected) {
        let mut r: Collected = Vec::new();
        r.push(CollectedInstance::value(self.sum));
        proof {
            assert(samples_of(r@) =~= self.samples());
        }
        r
    }

    fn fresh(&self) -> (r: Counter) {
        Counter { sum: 0 }
    }
}

} // verus!
