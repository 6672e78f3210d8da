//! A value that moves freely in either direction.

use crate::implementation::{samples_of, Collected, CollectedInstance, Implementation, SampleV};
use vstd::prelude::*;

verus! {

/// A gauge: one signed value with no sign constraint.
pub struct Gauge {
    pub value: i64,
}

impl Gauge {
    pub fn new() -> (g: Gauge)
        ensures
            g.value == 0,
            g.inv(),
    {
        Gauge { value: 0 }
    }

    pub fn inc(&mut self)
        requires
            old(self).value < i64::MAX,
        ensures
            final(self).value == old(self).value + 1,
            final(self).inv(),
    {
        self.add(1);
    }

    pub fn add(&mut self, value: i64)
        requires
            i64::MIN <= old(self).value + value <= i64::MAX,
        ensures
            final(self).value == old(self).value + value,
            final(self).inv(),
    {
        self.value = self.value + value;
    }

    pub fn dec(&mut self)
        requires
            i64::MIN < old(self).value,
        ensures
            final(self).value == old(self).value - 1,
            final(self).inv(),
    {
        self.sub(1);
    }

    pub fn sub(&mut self, value: i64)
        requires
            i64::MIN <= old(self).value - value <= i64::MAX,
        ensures
            final(self).value == old(self).value - value,
            final(self).inv(),
    {
        self.value = self.value - value;
    }

    pub fn set(&mut self, value: i64)
        ensures
            final(self).value == value,
            final(self).inv(),
    {
        self.value = value;
    }
}

impl Implementation for Gauge {
    open spec fn inv(&self) -> bool {
        true
    }

    open spec fn samples(&self) -> Seq<SampleV> {
        seq![SampleV { suffix: None, extra: None, value: self.value as int }]
    }

    open spec fn kind_name() -> Seq<char> {
        "gauge"@
    }

    open spec fn is_reset_of(r: &Gauge, proto: &Gauge) -> bool {
        r.value == 0
    }

    fn metric_type() -> (s: &'static str) {
        "gauge"
    }

    fn collect(&self) -> (r: Collected) {
        let mut r: Collected = Vec::new();
        r.push(CollectedInstance::value(self.value));
        proof {
            assert(samples_of(r@) =~= self.samples());
        }
        r
    }

    fn fresh(&self) -> (r: Gauge) {
        Gauge { value: 0 }
    }
}

} // verus!
