//! The narrow capability every metric kind offers the exposition path: a
//! type name and a `collect` of its current numeric state.

use vstd::prelude::*;

verus! {

/// Ghost form of one collected sample: an optional name suffix, optional
/// extra label pairs, and the numeric value.
pub struct SampleV {
    pub suffix: Option<Seq<char>>,
    pub extra: Option<Seq<(Seq<char>, Seq<char>)>>,
    pub value: int,
}

/// One sample produced during collection: rendered as one output line.
pub struct CollectedInstance {
    pub suffix: Option<String>,
    pub addition_labels: Option<Vec<(String, String)>>,
    pub value: i64,
}

impl View for CollectedInstance {
    type V = SampleV;

    open spec fn view(&self) -> SampleV {
        SampleV {
            suffix: self.suffix.deep_view(),
            extra: self.addition_labels.deep_view(),
            value: self.value as int,
        }
    }
}

impl CollectedInstance {
    pub fn new(
        v: i64,
        suffix: Option<String>,
        addition_labels: Option<Vec<(String, String)>>,
    ) -> (r: CollectedInstance)
        ensures
            r == (CollectedInstance { suffix, addition_labels, value: v }),
    {
        CollectedInstance { suffix, addition_labels, value: v }
    }

    pub fn value(v: i64) -> (r: CollectedInstance)
        ensures
            r == (CollectedInstance { suffix: None, addition_labels: None, value: v }),
    {
        Self::new(v, None, None)
    }
}

/// Everything an accumulator yields on one collection.
pub type Collected = Vec<CollectedInstance>;

/// The ghost samples of a collected vector.
pub open spec fn samples_of(v: Seq<CollectedInstance>) -> Seq<SampleV> {
    v.map_values(|c: CollectedInstance| c@)
}

/// The capability the exposition path uses on every metric kind, together
/// with the ghost state it is specified against.
pub trait Implementation: Sized {
    /// Internal well-formedness of one accumulator.
    spec fn inv(&self) -> bool;

    /// The samples the accumulator currently yields, in ghost form.
    spec fn samples(&self) -> Seq<SampleV>;

    /// The exposition type name, in ghost form.
    spec fn kind_name() -> Seq<char>;

    /// Whether `r` is a fresh accumulator sharing `proto`'s configuration,
    /// with all numeric state zeroed.
    spec fn is_reset_of(r: &Self, proto: &Self) -> bool;

    /// The name written on the `# TYPE` line.
    fn metric_type() -> (s: &'static str)
        ensures
            s@ == Self::kind_name(),
    ;

    /// The current samples; side-effect-free.
    fn collect(&self) -> (r: Collected)
        requires
            self.inv(),
        ensures
            samples_of(r@) == self.samples(),
    ;

    /// A fresh accumulator with this one's configuration.
    fn fresh(&self) -> (r: Self)
        requires
            self.inv(),
        ensures
            Self::is_reset_of(&r, self),
            r.inv(),
    ;
}

} // verus!
