//! An in-process metrics library: named, labeled metrics (counter, gauge,
//! histogram, summary) are registered in a [`Registry`], mutated on the hot
//! path, and later rendered into a text exposition format for scraping.
//!
//! The registry owns every declaration; the caller holds a linear
//! [`MetricId`] as the owning handle. Releasing the handle leaves the name
//! behind as a stale entry that contributes nothing to the exposition and
//! is reused by the next registration of the same name.

pub mod expose;
pub mod helpers;
pub mod implementation;
pub mod metrics;
pub mod numbers;
pub mod render;

use crate::helpers::{
    buckets_to_counts, hash_labels, labels_match, mismatch_reason, spec_hash_labels,
};
use crate::implementation::Implementation;
use crate::metrics::{Counter, Gauge, Histogram, Summary};
use crate::render::{render_entries, EntryV, MetricV, SlotV};
use vstd::prelude::*;

verus! {

/// The two failure kinds of the library.
#[derive(Debug)]
pub enum Error {
    /// A supplied label set's cardinality or names do not match the metric's
    /// declared label names; the reason string says which.
    InconsistentLabels(String),
    /// A registration collided with a live metric of the same name.
    MetricAlreadyExists,
}

impl Error {
    /// A short name of the error kind.
    pub fn description(&self) -> (s: &'static str)
        ensures
            (self is InconsistentLabels) ==> s@ == "InconsistentLabels"@,
            (self is MetricAlreadyExists) ==> s@ == "Already exists"@,
    {
        match self {
            Error::InconsistentLabels(_) => "InconsistentLabels",
            Error::MetricAlreadyExists => "Already exists",
        }
    }
}

/// One accumulator instance paired with the resolved label pairs it was
/// created for.
pub struct WithLabels<T> {
    pub implementation: T,
    pub labels: Vec<(String, String)>,
}

impl<T> WithLabels<T> {
    pub fn new(implementation: T, labels: Vec<(String, String)>) -> (r: WithLabels<T>)
        ensures
            r == (WithLabels { implementation, labels }),
    {
        WithLabels { implementation, labels }
    }
}

/// The index of the first storage slot keyed by `h`.
pub open spec fn find_key(keys: Seq<u64>, h: u64) -> Option<int>
    decreases keys.len(),
{
    if keys.len() == 0 {
        None
    } else if keys[0] == h {
        Some(0)
    } else {
        match find_key(keys.drop_first(), h) {
            Some(j) => Some(j + 1),
            None => None,
        }
    }
}

proof fn lemma_find_key_at(keys: Seq<u64>, h: u64, j: int)
    requires
        0 <= j < keys.len(),
        keys[j] == h,
        forall|k: int| 0 <= k < j ==> keys[k] != h,
    ensures
        find_key(keys, h) == Some(j),
    decreases j,
{
    if j > 0 {
        lemma_find_key_at(keys.drop_first(), h, j - 1);
    }
}

proof fn lemma_find_key_none(keys: Seq<u64>, h: u64)
    requires
        forall|k: int| 0 <= k < keys.len() ==> keys[k] != h,
    ensures
        find_key(keys, h) is None,
    decreases keys.len(),
{
    if keys.len() > 0 {
        lemma_find_key_none(keys.drop_first(), h);
    }
}

/// In well-formed storage the keys are distinct, so the slot a key already
/// occupies is exactly the slot a later lookup of that key resolves to:
/// labeled access is idempotent.
pub proof fn lemma_key_resolves_to_its_slot(keys: Seq<u64>, h: u64, i: int)
    requires
        forall|a: int, b: int| 0 <= a < b < keys.len() ==> keys[a] != keys[b],
        0 <= i < keys.len(),
        keys[i] == h,
    ensures
        find_key(keys, h) == Some(i),
{
    lemma_find_key_at(keys, h, i);
}

/// One metric declaration: its descriptor, a prototype accumulator standing
/// for the accumulator factory, and the storage mapping each label hash to
/// the accumulator created for it.
pub struct Metric<T> {
    pub(crate) name: String,
    pub(crate) help: Option<String>,
    pub(crate) labels: Vec<String>,
    pub(crate) proto: T,
    pub(crate) storage: Vec<(u64, WithLabels<T>)>,
}

impl<T: Implementation> Metric<T> {
    /// Well-formedness: the prototype and every stored accumulator hold
    /// their own invariant, and no two slots share a key.
    pub closed spec fn inv(self) -> bool {
        &&& self.proto.inv()
        &&& forall|i: int|
            0 <= i < self.storage@.len() ==> (#[trigger] self.storage@[i]).1.implementation.inv()
        &&& forall|a: int, b: int|
            0 <= a < b < self.storage@.len() ==> self.storage@[a].0 != self.storage@[b].0
    }

    /// The declared label names, in declared order.
    pub closed spec fn declared(self) -> Seq<Seq<char>> {
        self.labels.deep_view()
    }

    /// The storage keys, in slot order.
    pub closed spec fn key_seq(self) -> Seq<u64> {
        self.storage@.map_values(|p: (u64, WithLabels<T>)| p.0)
    }

    /// The accumulator stored in slot `i`.
    pub closed spec fn acc(self, i: int) -> T {
        self.storage@[i].1.implementation
    }

    /// The prototype accumulator every fresh slot is configured from.
    pub closed spec fn proto_of(self) -> T {
        self.proto
    }

    /// The metric as the exposition sees it.
    pub closed spec fn mv(self) -> MetricV {
        MetricV {
            name: self.name@,
            help: self.help.deep_view(),
            mtype: T::kind_name(),
            slots: Seq::new(
                self.storage@.len(),
                |i: int|
                    SlotV {
                        labels: self.storage@[i].1.labels.deep_view(),
                        samples: self.storage@[i].1.implementation.samples(),
                    },
            ),
        }
    }

    /// A fresh declaration with no label combination recorded yet.
    pub fn new(proto: T, name: String, help: Option<String>, labels: Vec<String>) -> (m: Metric<
        T,
    >)
        requires
            proto.inv(),
        ensures
            m.inv(),
            m.mv() == (MetricV {
                name: name@,
                help: help.deep_view(),
                mtype: T::kind_name(),
                slots: Seq::<SlotV>::empty(),
            }),
            m.declared() == labels.deep_view(),
            m.proto_of() == proto,
            m.key_seq() == Seq::<u64>::empty(),
    {
        let m = Metric { name, help, labels, proto, storage: Vec::new() };
        proof {
            assert(m.mv().slots =~= Seq::<SlotV>::empty());
            assert(m.key_seq() =~= Seq::<u64>::empty());
        }
        m
    }

    /// Resolves a supplied label set to its storage slot, creating a fresh
    /// accumulator for a combination seen for the first time. Fails, and
    /// changes nothing, exactly when the set does not match the declared
    /// names.
    pub fn labels(&mut self, supplied: &Vec<(String, String)>) -> (r: Result<usize, Error>)
        requires
            old(self).inv(),
        ensures
            final(self).inv(),
            final(self).declared() == old(self).declared(),
            final(self).proto_of() == old(self).proto_of(),
            (r is Ok) == labels_match(old(self).declared(), supplied.deep_view()),
            r matches Err(e) ==> *final(self) == *old(self) && (e matches Error::InconsistentLabels(
                reason,
            ) && reason@ == mismatch_reason(old(self).declared(), supplied.deep_view())),
            r matches Ok(i) ==> {
                let h = spec_hash_labels(old(self).declared(), supplied.deep_view());
                &&& i < final(self).key_seq().len()
                &&& final(self).key_seq()[i as int] == h
                &&& match find_key(old(self).key_seq(), h) {
                    Some(j) => i == j && *final(self) == *old(self),
                    None => {
                        &&& i == old(self).key_seq().len()
                        &&& final(self).key_seq() == old(self).key_seq().push(h)
                        &&& T::is_reset_of(&final(self).acc(i as int), &old(self).proto_of())
                        &&& final(self).mv() == (MetricV {
                            name: old(self).mv().name,
                            help: old(self).mv().help,
                            mtype: old(self).mv().mtype,
                            slots: old(self).mv().slots.push(
                                SlotV {
                                    labels: supplied.deep_view(),
                                    samples: final(self).acc(i as int).samples(),
                                },
                            ),
                        })
                    },
                }
            },
    {
        let hash = match hash_labels(&self.labels, supplied) {
            Ok(h) => h,
            Err(e) => {
                return Err(e);
            },
        };
        let ghost keys = self.key_seq();
        let mut i: usize = 0;
        while i < self.storage.len()
            invariant
                *self == *old(self),
                old(self).inv(),
                labels_match(old(self).declared(), supplied.deep_view()),
                hash == spec_hash_labels(old(self).declared(), supplied.deep_view()),
                i <= keys.len(),
                keys == self.key_seq(),
                keys.len() == self.storage@.len(),
                forall|k: int| 0 <= k < i ==> keys[k] != hash,
            decreases keys.len() - i,
        {
            if self.storage[i].0 == hash {
                proof {
                    lemma_find_key_at(keys, hash, i as int);
                }
                return Ok(i);
            }
            i += 1;
        }
        proof {
            lemma_find_key_none(keys, hash);
        }
        let fresh = self.proto.fresh();
        let resolved = clone_labels(supplied);
        let idx = self.storage.len();
        self.storage.push((hash, WithLabels::new(fresh, resolved)));
        proof {
            assert forall|a: int, b: int|
                0 <= a < b < self.storage@.len() implies self.storage@[a].0
                != self.storage@[b].0 by {
                if b + 1 == self.storage@.len() {
                    assert(keys[a] == old(self).storage@[a].0);
                }
            }
            assert(self.key_seq() =~= keys.push(hash));
            assert(self.mv().slots =~= old(self).mv().slots.push(
                SlotV {
                    labels: supplied.deep_view(),
                    samples: self.acc(idx as int).samples(),
                },
            ));
        }
        Ok(idx)
    }

    /// A mutable borrow of the accumulator in slot `slot`; everything else
    /// — keys, resolved labels, descriptor — stays as it was.
    pub fn accumulator(&mut self, slot: usize) -> (acc: &mut T)
        requires
            old(self).inv(),
            slot < old(self).key_seq().len(),
        ensures
            *acc == old(self).acc(slot as int),
            final(self).key_seq().len() == old(self).key_seq().len(),
            forall|j: int|
                0 <= j < old(self).key_seq().len() ==> final(self).key_seq()[j] == old(
                    self,
                ).key_seq()[j],
            final(self).declared() == old(self).declared(),
            final(self).proto_of() == old(self).proto_of(),
            final(self).mv().name == old(self).mv().name,
            final(self).mv().help == old(self).mv().help,
            final(self).mv().mtype == old(self).mv().mtype,
            final(self).mv().slots.len() == old(self).mv().slots.len(),
            forall|j: int|
                0 <= j < old(self).mv().slots.len() && j != slot ==> final(self).mv().slots[j]
                    == old(self).mv().slots[j],
            final(self).mv().slots[slot as int].labels == old(self).mv().slots[slot as int].labels,
            final(self).mv().slots[slot as int].samples == (*final(acc)).samples(),
            final(self).acc(slot as int) == *final(acc),
            (*final(acc)).inv() ==> final(self).inv(),
    {
        proof {
            assert(old(self).key_seq().len() == old(self).storage@.len());
        }
        &mut self.storage[slot].1.implementation
    }
}

/// A copy of `labels` with every string cloned.
fn clone_labels(labels: &Vec<(String, String)>) -> (r: Vec<(String, String)>)
    ensures
        r@ == labels@,
{
    let mut r: Vec<(String, String)> = Vec::new();
    let mut i: usize = 0;
    while i < labels.len()
        invariant
            i <= labels@.len(),
            r@.len() == i,
            forall|j: int| 0 <= j < i ==> #[trigger] r@[j] == labels@[j],
        decreases labels@.len() - i,
    {
        let pair = &labels[i];
        r.push((pair.0.clone(), pair.1.clone()));
        i += 1;
    }
    proof {
        assert(r@ =~= labels@);
    }
    r
}

/// One declaration as the registry stores it: a metric of one of the four
/// kinds.
pub enum Declaration {
    Counter(Metric<Counter>),
    Gauge(Metric<Gauge>),
    Histogram(Metric<Histogram>),
    Summary(Metric<Summary>),
}

impl Declaration {
    pub open spec fn inv(self) -> bool {
        match self {
            Declaration::Counter(m) => m.inv(),
            Declaration::Gauge(m) => m.inv(),
            Declaration::Histogram(m) => m.inv(),
            Declaration::Summary(m) => m.inv(),
        }
    }

    pub open spec fn mv(self) -> MetricV {
        match self {
            Declaration::Counter(m) => m.mv(),
            Declaration::Gauge(m) => m.mv(),
            Declaration::Histogram(m) => m.mv(),
            Declaration::Summary(m) => m.mv(),
        }
    }
}

pub(crate) struct Entry {
    pub(crate) name: String,
    pub(crate) decl: Option<Declaration>,
}

/// The owning handle of one registered metric. It is linear: releasing it
/// consumes it, and only then does the entry go stale.
#[derive(Debug)]
pub struct MetricId {
    index: usize,
}

impl MetricId {
    /// The registry slot this handle owns.
    pub closed spec fn idx(self) -> int {
        self.index as int
    }

    fn position(&self) -> (i: usize)
        ensures
            i == self.idx(),
    {
        self.index
    }
}

/// The index of the first entry registered under `name`.
pub open spec fn find_name(entries: Seq<EntryV>, name: Seq<char>) -> Option<int>
    decreases entries.len(),
{
    if entries.len() == 0 {
        None
    } else if entries[0].name == name {
        Some(0)
    } else {
        match find_name(entries.drop_first(), name) {
            Some(j) => Some(j + 1),
            None => None,
        }
    }
}

/// Whether a registration of `name` succeeds: the name is either unknown
/// or its entry is stale (its owning handle was released).
pub open spec fn register_allowed(entries: Seq<EntryV>, name: Seq<char>) -> bool {
    match find_name(entries, name) {
        Some(i) => entries[i].live is None,
        None => true,
    }
}

/// The entry index a successful registration of `name` lands in: a reused
/// stale slot, or a fresh one at the end.
pub open spec fn registered_index(entries: Seq<EntryV>, name: Seq<char>) -> int {
    match find_name(entries, name) {
        Some(i) => i,
        None => entries.len() as int,
    }
}

/// The entries after a successful registration of `name` with metric `mv`.
pub open spec fn registered(entries: Seq<EntryV>, name: Seq<char>, mv: MetricV) -> Seq<EntryV> {
    match find_name(entries, name) {
        Some(i) => entries.update(i, EntryV { name, live: Some(mv) }),
        None => entries.push(EntryV { name, live: Some(mv) }),
    }
}

proof fn lemma_find_name_at(entries: Seq<EntryV>, name: Seq<char>, j: int)
    requires
        0 <= j < entries.len(),
        entries[j].name == name,
        forall|k: int| 0 <= k < j ==> (#[trigger] entries[k]).name != name,
    ensures
        find_name(entries, name) == Some(j),
    decreases j,
{
    if j > 0 {
        lemma_find_name_at(entries.drop_first(), name, j - 1);
    }
}

proof fn lemma_find_name_none(entries: Seq<EntryV>, name: Seq<char>)
    requires
        forall|k: int| 0 <= k < entries.len() ==> (#[trigger] entries[k]).name != name,
    ensures
        find_name(entries, name) is None,
    decreases entries.len(),
{
    if entries.len() > 0 {
        lemma_find_name_none(entries.drop_first(), name);
    }
}

/// The registry: the named declarations, in registration order, each either
/// live or left stale by a released handle.
pub struct Registry {
    pub(crate) entries: Vec<Entry>,
}

impl Registry {
    /// The registry as contracts see it: one ghost entry per slot.
    pub closed spec fn rv(self) -> Seq<EntryV> {
        self.entries@.map_values(
            |e: Entry|
                EntryV {
                    name: e.name@,
                    live: match e.decl {
                        Some(d) => Some(d.mv()),
                        None => None,
                    },
                },
        )
    }

    /// The declaration stored in slot `i`.
    pub closed spec fn decl_at(self, i: int) -> Option<Declaration> {
        self.entries@[i].decl
    }

    /// Well-formedness: no two entries share a name, and every live
    /// declaration holds its invariant.
    pub closed spec fn inv(self) -> bool {
        &&& forall|a: int, b: int|
            0 <= a < b < self.entries@.len() ==> (#[trigger] self.entries@[a]).name@
                != (#[trigger] self.entries@[b]).name@
        &&& forall|i: int|
            0 <= i < self.entries@.len() ==> match (#[trigger] self.entries@[i]).decl {
                Some(d) => d.inv(),
                None => true,
            }
    }

    pub fn new() -> (r: Registry)
        ensures
            r.inv(),
            r.rv() == Seq::<EntryV>::empty(),
    {
        let r = Registry { entries: Vec::new() };
        proof {
            assert(r.rv() =~= Seq::<EntryV>::empty());
        }
        r
    }

    /// Stores `decl` under `name`. Fails with `MetricAlreadyExists`, and
    /// changes nothing, exactly when a live entry already carries the name;
    /// a stale entry of that name is reused.
    pub fn register(&mut self, name: String, decl: Declaration) -> (r: Result<MetricId, Error>)
        requires
            old(self).inv(),
            decl.inv(),
        ensures
            final(self).inv(),
            (r is Ok) == register_allowed(old(self).rv(), name@),
            r matches Err(e) ==> *final(self) == *old(self) && e is MetricAlreadyExists,
            r matches Ok(id) ==> {
                &&& 0 <= id.idx() < final(self).rv().len()
                &&& id.idx() == registered_index(old(self).rv(), name@)
                &&& final(self).rv() == registered(old(self).rv(), name@, decl.mv())
                &&& final(self).decl_at(id.idx()) == Some(decl)
            },
    {
        let ghost entries = self.rv();
        let ghost old_name = name@;
        let mut i: usize = 0;
        while i < self.entries.len()
            invariant
                *self == *old(self),
                old(self).inv(),
                decl.inv(),
                name@ == old_name,
                i <= entries.len(),
                entries == self.rv(),
                entries.len() == self.entries@.len(),
                forall|k: int| 0 <= k < i ==> (#[trigger] entries[k]).name != name@,
            decreases entries.len() - i,
        {
            if self.entries[i].name == name {
                proof {
                    lemma_find_name_at(entries, name@, i as int);
                }
                if self.entries[i].decl.is_some() {
                    return Err(Error::MetricAlreadyExists);
                }
                let e = &mut self.entries[i];
                e.decl = Some(decl);
                proof {
                    assert(self.rv() =~= registered(entries, name@, decl.mv()));
                }
                return Ok(MetricId { index: i });
            }
            i += 1;
        }
        proof {
            lemma_find_name_none(entries, name@);
        }
        let idx = self.entries.len();
        self.entries.push(Entry { name, decl: Some(decl) });
        proof {
            assert forall|a: int, b: int|
                0 <= a < b < self.entries@.len() implies (#[trigger] self.entries@[a]).name@
                != (#[trigger] self.entries@[b]).name@ by {
                if b + 1 == self.entries@.len() {
                    assert(entries[a].name == old(self).entries@[a].name@);
                }
            }
            assert(self.rv() =~= registered(entries, name@, decl.mv()));
        }
        Ok(MetricId { index: idx })
    }

    /// Registers a counter metric under `name`.
    pub fn counter(&mut self, name: String, help: Option<String>, labels: Vec<String>) -> (r:
        Result<MetricId, Error>)
        requires
            old(self).inv(),
        ensures
            final(self).inv(),
            (r is Ok) == register_allowed(old(self).rv(), name@),
            r matches Err(e) ==> *final(self) == *old(self) && e is MetricAlreadyExists,
            r matches Ok(id) ==> {
                &&& id.idx() == registered_index(old(self).rv(), name@)
                &&& final(self).rv() == registered(
                    old(self).rv(),
                    name@,
                    (MetricV {
                        name: name@,
                        help: help.deep_view(),
                        mtype: "counter"@,
                        slots: Seq::<SlotV>::empty(),
                    }),
                )
                &&& 0 <= id.idx() < final(self).rv().len()
                &&& final(self).is_counter_at(id.idx())
                &&& final(self).counter_at(id.idx()).declared() == labels.deep_view()
                &&& final(self).counter_at(id.idx()).inv()
                &&& final(self).counter_at(id.idx()).proto_of() == (Counter { sum: 0 })
                &&& final(self).counter_at(id.idx()).key_seq() == Seq::<u64>::empty()
            },
    {
        let m = Metric::new(Counter::new(), name.clone(), help, labels);
        self.register(name, Declaration::Counter(m))
    }

    /// Registers a summary metric under `name`.
    pub fn summary(&mut self, name: String, help: Option<String>, labels: Vec<String>) -> (r:
        Result<MetricId, Error>)
        requires
            old(self).inv(),
        ensures
            final(self).inv(),
            (r is Ok) == register_allowed(old(self).rv(), name@),
            r matches Err(e) ==> *final(self) == *old(self) && e is MetricAlreadyExists,
            r matches Ok(id) ==> {
                &&& id.idx() == registered_index(old(self).rv(), name@)
                &&& final(self).rv() == registered(
                    old(self).rv(),
                    name@,
                    (MetricV {
                        name: name@,
                        help: help.deep_view(),
                        mtype: "summary"@,
                        slots: Seq::<SlotV>::empty(),
                    }),
                )
                &&& 0 <= id.idx() < final(self).rv().len()
                &&& final(self).is_summary_at(id.idx())
                &&& final(self).summary_at(id.idx()).declared() == labels.deep_view()
                &&& final(self).summary_at(id.idx()).inv()
                &&& final(self).summary_at(id.idx()).proto_of() == (Summary { sum: 0, count: 0 })
                &&& final(self).summary_at(id.idx()).key_seq() == Seq::<u64>::empty()
            },
    {
        let m = Metric::new(Summary::new(), name.clone(), help, labels);
        self.register(name, Declaration::Summary(m))
    }

    /// Registers a gauge metric under `name`.
    pub fn gauge(&mut self, name: String, help: Option<String>, labels: Vec<String>) -> (r: Result<
        MetricId,
        Error,
    >)
        requires
            old(self).inv(),
        ensures
            final(self).inv(),
            (r is Ok) == register_allowed(old(self).rv(), name@),
            r matches Err(e) ==> *final(self) == *old(self) && e is MetricAlreadyExists,
            r matches Ok(id) ==> {
                &&& id.idx() == registered_index(old(self).rv(), name@)
                &&& final(self).rv() == registered(
                    old(self).rv(),
                    name@,
                    (MetricV {
                        name: name@,
                        help: help.deep_view(),
                        mtype: "gauge"@,
                        slots: Seq::<SlotV>::empty(),
                    }),
                )
                &&& 0 <= id.idx() < final(self).rv().len()
                &&& final(self).is_gauge_at(id.idx())
                &&& final(self).gauge_at(id.idx()).declared() == labels.deep_view()
                &&& final(self).gauge_at(id.idx()).inv()
                &&& final(self).gauge_at(id.idx()).proto_of() == (Gauge { value: 0 })
                &&& final(self).gauge_at(id.idx()).key_seq() == Seq::<u64>::empty()
            },
    {
        let m = Metric::new(Gauge::new(), name.clone(), help, labels);
        self.register(name, Declaration::Gauge(m))
    }

    /// Registers a histogram metric under `name`, expanding the ascending
    /// `buckets` bounds into the bucket table shared by all of its label
    /// combinations.
    pub fn histogram(
        &mut self,
        name: String,
        help: Option<String>,
        labels: Vec<String>,
        buckets: Vec<i64>,
    ) -> (r: Result<MetricId, Error>)
        requires
            old(self).inv(),
            forall|i: int| 0 <= i < buckets@.len() ==> #[trigger] buckets@[i] < i64::MAX,
        ensures
            final(self).inv(),
            (r is Ok) == register_allowed(old(self).rv(), name@),
            r matches Err(e) ==> *final(self) == *old(self) && e is MetricAlreadyExists,
            r matches Ok(id) ==> {
                &&& id.idx() == registered_index(old(self).rv(), name@)
                &&& final(self).rv() == registered(
                    old(self).rv(),
                    name@,
                    (MetricV {
                        name: name@,
                        help: help.deep_view(),
                        mtype: "histogram"@,
                        slots: Seq::<SlotV>::empty(),
                    }),
                )
                &&& 0 <= id.idx() < final(self).rv().len()
                &&& final(self).is_histogram_at(id.idx())
                &&& final(self).histogram_at(id.idx()).declared() == labels.deep_view()
                &&& final(self).histogram_at(id.idx()).inv()
                &&& final(self).histogram_at(id.idx()).proto_of().has_bucket_table(buckets@)
                &&& final(self).histogram_at(id.idx()).key_seq() == Seq::<u64>::empty()
            },
    {
        let (counts, bucket_labels) = buckets_to_counts(buckets);
        let proto = Histogram::new(counts, bucket_labels);
        let m = Metric::new(proto, name.clone(), help, labels);
        self.register(name, Declaration::Histogram(m))
    }

    /// Whether slot `i` holds a live counter declaration.
    pub closed spec fn is_counter_at(self, i: int) -> bool {
        match self.entries@[i].decl {
            Some(Declaration::Counter(_)) => true,
            _ => false,
        }
    }

    /// The counter declaration in slot `i`.
    pub closed spec fn counter_at(self, i: int) -> Metric<Counter> {
        match self.entries@[i].decl {
            Some(Declaration::Counter(m)) => m,
            _ => vstd::pervasive::arbitrary(),
        }
    }

    /// Whether slot `i` holds a live gauge declaration.
    pub closed spec fn is_gauge_at(self, i: int) -> bool {
        match self.entries@[i].decl {
            Some(Declaration::Gauge(_)) => true,
            _ => false,
        }
    }

    /// The gauge declaration in slot `i`.
    pub closed spec fn gauge_at(self, i: int) -> Metric<Gauge> {
        match self.entries@[i].decl {
            Some(Declaration::Gauge(m)) => m,
            _ => vstd::pervasive::arbitrary(),
        }
    }

    /// Whether slot `i` holds a live histogram declaration.
    pub closed spec fn is_histogram_at(self, i: int) -> bool {
        match self.entries@[i].decl {
            Some(Declaration::Histogram(_)) => true,
            _ => false,
        }
    }

    /// The histogram declaration in slot `i`.
    pub closed spec fn histogram_at(self, i: int) -> Metric<Histogram> {
        match self.entries@[i].decl {
            Some(Declaration::Histogram(m)) => m,
            _ => vstd::pervasive::arbitrary(),
        }
    }

    /// Whether slot `i` holds a live summary declaration.
    pub closed spec fn is_summary_at(self, i: int) -> bool {
        match self.entries@[i].decl {
            Some(Declaration::Summary(_)) => true,
            _ => false,
        }
    }

    /// The summary declaration in slot `i`.
    pub closed spec fn summary_at(self, i: int) -> Metric<Summary> {
        match self.entries@[i].decl {
            Some(Declaration::Summary(m)) => m,
            _ => vstd::pervasive::arbitrary(),
        }
    }

    /// A mutable borrow of the counter declaration the handle `id` owns.
    pub fn counter_mut(&mut self, id: &MetricId) -> (m: &mut Metric<Counter>)
        requires
            old(self).inv(),
            0 <= id.idx() < old(self).rv().len(),
            old(self).is_counter_at(id.idx()),
        ensures
            *m == old(self).counter_at(id.idx()),
            (*m).inv(),
            final(self).rv().len() == old(self).rv().len(),
            forall|j: int|
                0 <= j < old(self).rv().len() && j != id.idx() ==> final(self).rv()[j] == old(
                    self,
                ).rv()[j],
            final(self).rv()[id.idx()] == (EntryV {
                name: old(self).rv()[id.idx()].name,
                live: Some((*final(m)).mv()),
            }),
            final(self).is_counter_at(id.idx()),
            final(self).counter_at(id.idx()) == *final(m),
            (*final(m)).inv() ==> final(self).inv(),
    {
        let i = id.position();
        let entry = &mut self.entries[i];
        match &mut entry.decl {
            Some(Declaration::Counter(m)) => m,
            _ => vstd::pervasive::unreached(),
        }
    }

    /// A mutable borrow of the gauge declaration the handle `id` owns.
    pub fn gauge_mut(&mut self, id: &MetricId) -> (m: &mut Metric<Gauge>)
        requires
            old(self).inv(),
            0 <= id.idx() < old(self).rv().len(),
            old(self).is_gauge_at(id.idx()),
        ensures
            *m == old(self).gauge_at(id.idx()),
            (*m).inv(),
            final(self).rv().len() == old(self).rv().len(),
            forall|j: int|
                0 <= j < old(self).rv().len() && j != id.idx() ==> final(self).rv()[j] == old(
                    self,
                ).rv()[j],
            final(self).rv()[id.idx()] == (EntryV {
                name: old(self).rv()[id.idx()].name,
                live: Some((*final(m)).mv()),
            }),
            final(self).is_gauge_at(id.idx()),
            final(self).gauge_at(id.idx()) == *final(m),
            (*final(m)).inv() ==> final(self).inv(),
    {
        let i = id.position();
        let entry = &mut self.entries[i];
        match &mut entry.decl {
            Some(Declaration::Gauge(m)) => m,
            _ => vstd::pervasive::unreached(),
        }
    }

    /// A mutable borrow of the histogram declaration the handle `id` owns.
    pub fn histogram_mut(&mut self, id: &MetricId) -> (m: &mut Metric<Histogram>)
        requires
            old(self).inv(),
            0 <= id.idx() < old(self).rv().len(),
            old(self).is_histogram_at(id.idx()),
        ensures
            *m == old(self).histogram_at(id.idx()),
            (*m).inv(),
            final(self).rv().len() == old(self).rv().len(),
            forall|j: int|
                0 <= j < old(self).rv().len() && j != id.idx() ==> final(self).rv()[j] == old(
                    self,
                ).rv()[j],
            final(self).rv()[id.idx()] == (EntryV {
                name: old(self).rv()[id.idx()].name,
                live: Some((*final(m)).mv()),
            }),
            final(self).is_histogram_at(id.idx()),
            final(self).histogram_at(id.idx()) == *final(m),
            (*final(m)).inv() ==> final(self).inv(),
    {
        let i = id.position();
        let entry = &mut self.entries[i];
        match &mut entry.decl {
            Some(Declaration::Histogram(m)) => m,
            _ => vstd::pervasive::unreached(),
        }
    }

    /// A mutable borrow of the summary declaration the handle `id` owns.
    pub fn summary_mut(&mut self, id: &MetricId) -> (m: &mut Metric<Summary>)
        requires
            old(self).inv(),
            0 <= id.idx() < old(self).rv().len(),
            old(self).is_summary_at(id.idx()),
        ensures
            *m == old(self).summary_at(id.idx()),
            (*m).inv(),
            final(self).rv().len() == old(self).rv().len(),
            forall|j: int|
                0 <= j < old(self).rv().len() && j != id.idx() ==> final(self).rv()[j] == old(
                    self,
                ).rv()[j],
            final(self).rv()[id.idx()] == (EntryV {
                name: old(self).rv()[id.idx()].name,
                live: Some((*final(m)).mv()),
            }),
            final(self).is_summary_at(id.idx()),
            final(self).summary_at(id.idx()) == *final(m),
            (*final(m)).inv() ==> final(self).inv(),
    {
        let i = id.position();
        let entry = &mut self.entries[i];
        match &mut entry.decl {
            Some(Declaration::Summary(m)) => m,
            _ => vstd::pervasive::unreached(),
        }
    }

    /// Releases the owning handle `id`: its entry goes stale, contributes
    /// nothing to any later exposition, and its name may be registered
    /// again.
    pub fn release(&mut self, id: MetricId)
        requires
            old(self).inv(),
            0 <= id.idx() < old(self).rv().len(),
        ensures
            final(self).inv(),
            final(self).rv().len() == old(self).rv().len(),
            forall|j: int|
                0 <= j < old(self).rv().len() && j != id.idx() ==> final(self).rv()[j] == old(
                    self,
                ).rv()[j],
            final(self).rv()[id.idx()] == (EntryV {
                name: old(self).rv()[id.idx()].name,
                live: None,
            }),
    {
        let i = id.position();
        let e = &mut self.entries[i];
        e.decl = None;
    }

    /// Renders the current state of every live metric into `format`.
    pub fn expose(&mut self, format: expose::Format) -> (r: expose::Formatted)
        requires
            old(self).inv(),
        ensures
            *final(self) == *old(self),
            r.body@ == render_entries(old(self).rv()),
            r.content_type@ == "text/plain; version=0.0.4"@,
    {
        match format {
            expose::Format::Text => render::text(self),
        }
    }
}

/// Two valid label sets holding the same pairs — each with no repeated
/// name, in whatever order — hash to the same storage key of a well-formed
/// metric, and that key resolves to the one slot already holding it:
/// labeled access is idempotent keying under permutation of the supplied
/// pairs, however often the accumulators in between were mutated.
pub proof fn lemma_labels_idempotent_under_permutation<T: Implementation>(
    m: Metric<T>,
    l1: Seq<(Seq<char>, Seq<char>)>,
    l2: Seq<(Seq<char>, Seq<char>)>,
    i: int,
)
    requires
        m.inv(),
        forall|a: int, b: int| 0 <= a < b < l1.len() ==> (#[trigger] l1[a]).0 != (#[trigger] l1[b]).0,
        forall|a: int, b: int| 0 <= a < b < l2.len() ==> (#[trigger] l2[a]).0 != (#[trigger] l2[b]).0,
        forall|p: (Seq<char>, Seq<char>)| l1.contains(p) <==> l2.contains(p),
        0 <= i < m.key_seq().len(),
        m.key_seq()[i] == spec_hash_labels(m.declared(), l1),
    ensures
        spec_hash_labels(m.declared(), l2) == spec_hash_labels(m.declared(), l1),
        find_key(m.key_seq(), spec_hash_labels(m.declared(), l2)) == Some(i),
{
    crate::helpers::lemma_hash_labels_permutation(m.declared(), l1, l2);
    assert forall|a: int, b: int|
        0 <= a < b < m.key_seq().len() implies m.key_seq()[a] != m.key_seq()[b] by {
        assert(m.key_seq()[a] == m.storage@[a].0);
        assert(m.key_seq()[b] == m.storage@[b].0);
    }
    lemma_key_resolves_to_its_slot(m.key_seq(), spec_hash_labels(m.declared(), l1), i);
}

/// A successful registration blocks the name: registering it again fails
/// until the handle is released, and the failure leaves the first
/// registration's metric exactly where it was.
pub proof fn lemma_register_twice(entries: Seq<EntryV>, name: Seq<char>, mv: MetricV)
    requires
        register_allowed(entries, name),
    ensures
        !register_allowed(registered(entries, name, mv), name),
        registered(entries, name, mv)[registered_index(entries, name)] == (EntryV {
            name,
            live: Some(mv),
        }),
{
    let after = registered(entries, name, mv);
    let i = registered_index(entries, name);
    match find_name(entries, name) {
        Some(j) => {
            lemma_find_name_prefix_free(entries, name, j);
            assert(after =~= entries.update(j, EntryV { name, live: Some(mv) }));
            lemma_find_name_at(after, name, j);
        },
        None => {
            lemma_find_name_none_extends(entries, name, mv);
            lemma_find_name_at(after, name, entries.len() as int);
        },
    }
}

proof fn lemma_find_name_prefix_free(entries: Seq<EntryV>, name: Seq<char>, j: int)
    requires
        find_name(entries, name) == Some(j),
    ensures
        0 <= j < entries.len(),
        entries[j].name == name,
        forall|k: int| 0 <= k < j ==> (#[trigger] entries[k]).name != name,
    decreases entries.len(),
{
    if entries.len() > 0 {
        if entries[0].name == name {
        } else {
            lemma_find_name_prefix_free(entries.drop_first(), name, j - 1);
            assert forall|k: int| 0 <= k < j implies (#[trigger] entries[k]).name != name by {
                if k > 0 {
                    assert(entries.drop_first()[k - 1] == entries[k]);
                }
            }
        }
    }
}

proof fn lemma_find_name_none_extends(entries: Seq<EntryV>, name: Seq<char>, mv: MetricV)
    requires
        find_name(entries, name) is None,
    ensures
        forall|k: int| 0 <= k < entries.len() ==> (#[trigger] entries[k]).name != name,
    decreases entries.len(),
{
    if entries.len() > 0 {
        lemma_find_name_none_extends(entries.drop_first(), name, mv);
        assert forall|k: int| 0 <= k < entries.len() implies (#[trigger] entries[k]).name
            != name by {
            if k > 0 {
                assert(entries.drop_first()[k - 1] == entries[k]);
            }
        }
    }
}

/// After a handle is released, its name can be registered again: the stale
/// entry does not shadow the registration.
pub proof fn lemma_reregister_after_release(entries: Seq<EntryV>, i: int)
    requires
        0 <= i < entries.len(),
        entries[i].live is None,
        forall|k: int| 0 <= k < i ==> (#[trigger] entries[k]).name != entries[i].name,
    ensures
        register_allowed(entries, entries[i].name),
{
    lemma_find_name_at(entries, entries[i].name, i);
}

} // verus!
