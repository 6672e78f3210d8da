//! The text exposition: ghost views of metrics and registry entries, the
//! rendering of those views as a character sequence, and the executable
//! renderer proved against it.

use crate::expose::Formatted;
use crate::implementation::{samples_of, Implementation, SampleV};
use crate::numbers::{int_str, push_i64};
use crate::{Declaration, Metric, Registry};
use vstd::prelude::*;
use vstd::string::StringExecFns;

verus! {

/// Ghost form of one stored label combination: its resolved label pairs and
/// the samples its accumulator currently yields.
pub struct SlotV {
    pub labels: Seq<(Seq<char>, Seq<char>)>,
    pub samples: Seq<SampleV>,
}

/// Ghost form of one metric as the exposition sees it.
pub struct MetricV {
    pub name: Seq<char>,
    pub help: Option<Seq<char>>,
    pub mtype: Seq<char>,
    pub slots: Seq<SlotV>,
}

/// Ghost form of one registry entry: its registered name and, when the
/// owning handle still lives, the metric behind it.
pub struct EntryV {
    pub name: Seq<char>,
    pub live: Option<MetricV>,
}

/// One rendered label pair.
pub open spec fn pair_text(p: (Seq<char>, Seq<char>)) -> Seq<char> {
    p.0 + "=\""@ + p.1 + "\""@
}

/// Label pairs joined with commas, none trailing.
pub open spec fn join_pairs(pairs: Seq<(Seq<char>, Seq<char>)>) -> Seq<char>
    decreases pairs.len(),
{
    if pairs.len() == 0 {
        Seq::empty()
    } else if pairs.len() == 1 {
        pair_text(pairs[0])
    } else {
        pair_text(pairs[0]) + ","@ + join_pairs(pairs.drop_first())
    }
}

/// The braced label block of one line: declared pairs, then extra pairs,
/// comma-separated; omitted entirely when both are empty.
pub open spec fn label_block(
    labels: Seq<(Seq<char>, Seq<char>)>,
    extra: Option<Seq<(Seq<char>, Seq<char>)>>,
) -> Seq<char> {
    let extras = match extra {
        Some(e) => e,
        None => Seq::empty(),
    };
    if labels.len() == 0 && extras.len() == 0 {
        Seq::empty()
    } else {
        "{"@ + join_pairs(labels) + (if labels.len() > 0 && extras.len() > 0 {
            ","@
        } else {
            Seq::empty()
        }) + join_pairs(extras) + "}"@
    }
}

/// One output line: the metric name, an optional suffix behind `'_'`, the
/// label block, a space, the value, a newline.
pub open spec fn sample_line(
    name: Seq<char>,
    labels: Seq<(Seq<char>, Seq<char>)>,
    s: SampleV,
) -> Seq<char> {
    name + (match s.suffix {
        Some(sfx) => "_"@ + sfx,
        None => Seq::empty(),
    }) + label_block(labels, s.extra) + " "@ + int_str(s.value) + "\n"@
}

/// The lines of one stored label combination, one per sample.
pub open spec fn render_samples(
    name: Seq<char>,
    labels: Seq<(Seq<char>, Seq<char>)>,
    samples: Seq<SampleV>,
) -> Seq<char>
    decreases samples.len(),
{
    if samples.len() == 0 {
        Seq::empty()
    } else {
        sample_line(name, labels, samples[0]) + render_samples(name, labels, samples.drop_first())
    }
}

/// The lines of all stored label combinations of one metric.
pub open spec fn render_slots(name: Seq<char>, slots: Seq<SlotV>) -> Seq<char>
    decreases slots.len(),
{
    if slots.len() == 0 {
        Seq::empty()
    } else {
        render_samples(name, slots[0].labels, slots[0].samples) + render_slots(
            name,
            slots.drop_first(),
        )
    }
}

/// The optional `# HELP` line of one metric.
pub open spec fn help_line(mv: MetricV) -> Seq<char> {
    match mv.help {
        Some(h) => "# HELP "@ + mv.name + " "@ + h + "\n"@,
        None => Seq::empty(),
    }
}

/// The `# TYPE` line of one metric.
pub open spec fn type_line(mv: MetricV) -> Seq<char> {
    "# TYPE "@ + mv.name + " "@ + mv.mtype + "\n"@
}

/// The whole output of one metric: nothing at all when it has recorded no
/// label combination, else its headers and every value line.
pub open spec fn render_metric(mv: MetricV) -> Seq<char> {
    if mv.slots.len() == 0 {
        Seq::empty()
    } else {
        help_line(mv) + type_line(mv) + render_slots(mv.name, mv.slots)
    }
}

/// The output of one registry entry: nothing when its owning handle was
/// dropped.
pub open spec fn render_entry(e: EntryV) -> Seq<char> {
    match e.live {
        None => Seq::empty(),
        Some(mv) => render_metric(mv),
    }
}

/// The whole exposition body: every entry in registry order.
pub open spec fn render_entries(entries: Seq<EntryV>) -> Seq<char>
    decreases entries.len(),
{
    if entries.len() == 0 {
        Seq::empty()
    } else {
        render_entry(entries[0]) + render_entries(entries.drop_first())
    }
}

proof fn lemma_join_pairs_push(pairs: Seq<(Seq<char>, Seq<char>)>, p: (Seq<char>, Seq<char>))
    ensures
        join_pairs(pairs.push(p)) == join_pairs(pairs) + (if pairs.len() > 0 {
            ","@
        } else {
            Seq::<char>::empty()
        }) + pair_text(p),
    decreases pairs.len(),
{
    let whole = pairs.push(p);
    if pairs.len() == 0 {
        assert(whole.len() == 1);
        assert(whole[0] == p);
        assert(join_pairs(whole) =~= join_pairs(pairs) + Seq::<char>::empty() + pair_text(p));
    } else {
        lemma_join_pairs_push(pairs.drop_first(), p);
        assert(whole.drop_first() =~= pairs.drop_first().push(p));
        assert(join_pairs(whole) =~= join_pairs(pairs) + ","@ + pair_text(p));
    }
}

proof fn lemma_render_samples_push(
    name: Seq<char>,
    labels: Seq<(Seq<char>, Seq<char>)>,
    samples: Seq<SampleV>,
    s: SampleV,
)
    ensures
        render_samples(name, labels, samples.push(s)) == render_samples(name, labels, samples)
            + sample_line(name, labels, s),
    decreases samples.len(),
{
    reveal_with_fuel(render_samples, 2);
    let whole = samples.push(s);
    if samples.len() == 0 {
        assert(whole[0] == s);
        assert(whole.drop_first() =~= Seq::<SampleV>::empty());
        assert(render_samples(name, labels, whole) =~= render_samples(name, labels, samples)
            + sample_line(name, labels, s));
    } else {
        lemma_render_samples_push(name, labels, samples.drop_first(), s);
        assert(whole.drop_first() =~= samples.drop_first().push(s));
        assert(render_samples(name, labels, whole) =~= render_samples(name, labels, samples)
            + sample_line(name, labels, s));
    }
}

proof fn lemma_render_slots_push(name: Seq<char>, slots: Seq<SlotV>, s: SlotV)
    ensures
        render_slots(name, slots.push(s)) == render_slots(name, slots) + render_samples(
            name,
            s.labels,
            s.samples,
        ),
    decreases slots.len(),
{
    reveal_with_fuel(render_slots, 2);
    let whole = slots.push(s);
    if slots.len() == 0 {
        assert(whole[0] == s);
        assert(whole.drop_first() =~= Seq::<SlotV>::empty());
        assert(render_slots(name, whole) =~= render_slots(name, slots) + render_samples(
            name,
            s.labels,
            s.samples,
        ));
    } else {
        lemma_render_slots_push(name, slots.drop_first(), s);
        assert(whole.drop_first() =~= slots.drop_first().push(s));
        assert(render_slots(name, whole) =~= render_slots(name, slots) + render_samples(
            name,
            s.labels,
            s.samples,
        ));
    }
}

proof fn lemma_render_entries_push(entries: Seq<EntryV>, e: EntryV)
    ensures
        render_entries(entries.push(e)) == render_entries(entries) + render_entry(e),
    decreases entries.len(),
{
    reveal_with_fuel(render_entries, 2);
    let whole = entries.push(e);
    if entries.len() == 0 {
        assert(whole[0] == e);
        assert(whole.drop_first() =~= Seq::<EntryV>::empty());
        assert(render_entries(whole) =~= render_entries(entries) + render_entry(e));
    } else {
        lemma_render_entries_push(entries.drop_first(), e);
        assert(whole.drop_first() =~= entries.drop_first().push(e));
        assert(render_entries(whole) =~= render_entries(entries) + render_entry(e));
    }
}

/// Appends the comma-joined label pairs to `buf`.
pub fn join_labels(buf: &mut String, labels: &Vec<(String, String)>)
    ensures
        final(buf)@ == old(buf)@ + join_pairs(labels.deep_view()),
{
    let ghost ldv = labels.deep_view();
    let mut i: usize = 0;
    proof {
        assert(ldv.take(0) =~= Seq::<(Seq<char>, Seq<char>)>::empty());
        assert(old(buf)@ + join_pairs(ldv.take(0)) =~= old(buf)@);
    }
    while i < labels.len()
        invariant
            i <= ldv.len(),
            labels.deep_view() == ldv,
            buf@ == old(buf)@ + join_pairs(ldv.take(i as int)),
        decreases ldv.len() - i,
    {
        if i > 0 {
            buf.append(",");
        }
        let pair = &labels[i];
        buf.append(pair.0.as_str());
        buf.append("=\"");
        buf.append(pair.1.as_str());
        buf.append("\"");
        proof {
            lemma_join_pairs_push(ldv.take(i as int), ldv[i as int]);
            assert(ldv.take(i as int).push(ldv[i as int]) =~= ldv.take(i as int + 1));
            assert(buf@ =~= old(buf)@ + join_pairs(ldv.take(i as int + 1)));
        }
        i += 1;
    }
    proof {
        assert(ldv.take(ldv.len() as int) =~= ldv);
    }
}

/// The braced label block for one line: the declared pairs, then any extra
/// pairs a sample carries, comma-separated.
pub fn labels_to_text(
    labels: &Vec<(String, String)>,
    addition_labels: &Option<Vec<(String, String)>>,
) -> (r: String)
    ensures
        r@ == "{"@ + join_pairs(labels.deep_view()) + (if labels@.len() > 0 && (match
            addition_labels {
            Some(e) => e@.len() > 0,
            None => false,
        }) {
            ","@
        } else {
            Seq::<char>::empty()
        }) + (match addition_labels {
            Some(e) => join_pairs(e.deep_view()),
            None => Seq::<char>::empty(),
        }) + "}"@,
{
    let mut r = String::from_str("{");
    join_labels(&mut r, labels);
    match addition_labels {
        Some(extra) => {
            if labels.len() > 0 && extra.len() > 0 {
                r.append(",");
            }
            join_labels(&mut r, extra);
        },
        None => {},
    }
    r.append("}");
    proof {
        assert(r@ =~= "{"@ + join_pairs(labels.deep_view()) + (if labels@.len() > 0 && (match
            addition_labels {
            Some(e) => e@.len() > 0,
            None => false,
        }) {
            ","@
        } else {
            Seq::<char>::empty()
        }) + (match addition_labels {
            Some(e) => join_pairs(e.deep_view()),
            None => Seq::<char>::empty(),
        }) + "}"@);
    }
    r
}

/// Appends every line of one metric to `buf`: nothing when it has recorded
/// no label combination, else its headers and every sample of every stored
/// label combination.
#[verifier::rlimit(60)]
fn render_metric_text<T: Implementation>(buf: &mut String, m: &Metric<T>)
    requires
        m.inv(),
    ensures
        final(buf)@ == old(buf)@ + render_metric(m.mv()),
{
    let ghost mv = m.mv();
    if m.storage.len() == 0 {
        proof {
            assert(old(buf)@ + render_metric(mv) =~= old(buf)@);
        }
        return ;
    }
    match &m.help {
        Some(h) => {
            buf.append("# HELP ");
            buf.append(m.name.as_str());
            buf.append(" ");
            buf.append(h.as_str());
            buf.append("\n");
        },
        None => {},
    }
    proof {
        assert(buf@ =~= old(buf)@ + help_line(mv));
    }
    buf.append("# TYPE ");
    buf.append(m.name.as_str());
    buf.append(" ");
    buf.append(T::metric_type());
    buf.append("\n");
    proof {
        assert(buf@ =~= old(buf)@ + help_line(mv) + type_line(mv));
    }
    let ghost header = old(buf)@ + help_line(mv) + type_line(mv);
    let mut i: usize = 0;
    proof {
        assert(mv.slots.take(0) =~= Seq::<SlotV>::empty());
        assert(header + render_slots(mv.name, mv.slots.take(0)) =~= header);
    }
    while i < m.storage.len()
        invariant
            m.inv(),
            i <= m.storage@.len(),
            mv == m.mv(),
            mv.slots.len() == m.storage@.len(),
            buf@ == header + render_slots(mv.name, mv.slots.take(i as int)),
        decreases m.storage@.len() - i,
    {
        let slot = &m.storage[i].1;
        let collected = slot.implementation.collect();
        let ghost samples = mv.slots[i as int].samples;
        let ghost slabels = mv.slots[i as int].labels;
        proof {
            assert(slot.implementation == m.storage@[i as int].1.implementation);
            assert(samples == slot.implementation.samples());
            assert(slabels == slot.labels.deep_view());
            assert(samples_of(collected@).len() == collected@.len());
            assert forall|k: int| 0 <= k < samples.len() implies (#[trigger] collected@[k])@
                == samples[k] by {
                assert(samples_of(collected@)[k] == collected@[k]@);
            }
        }
        let ghost base = buf@;
        let mut j: usize = 0;
        proof {
            assert(samples.take(0) =~= Seq::<SampleV>::empty());
            assert(base + render_samples(mv.name, slabels, samples.take(0)) =~= base);
        }
        while j < collected.len()
            invariant
                j <= collected@.len(),
                collected@.len() == samples.len(),
                forall|k: int| 0 <= k < samples.len() ==> (#[trigger] collected@[k])@ == samples[k],
                slabels == slot.labels.deep_view(),
                mv == m.mv(),
                buf@ == base + render_samples(mv.name, slabels, samples.take(j as int)),
                m.name@ == mv.name,
            decreases collected@.len() - j,
        {
            let sample = &collected[j];
            buf.append(m.name.as_str());
            match &sample.suffix {
                Some(sfx) => {
                    buf.append("_");
                    buf.append(sfx.as_str());
                },
                None => {},
            }
            let has_extra = match &sample.addition_labels {
                Some(v) => v.len() > 0,
                None => false,
            };
            if slot.labels.len() > 0 || has_extra {
                let block = labels_to_text(&slot.labels, &sample.addition_labels);
                buf.append(block.as_str());
            }
            buf.append(" ");
            push_i64(buf, sample.value);
            buf.append("\n");
            proof {
                assert(sample@ == samples[j as int]);
                assert(buf@ =~= base + render_samples(mv.name, slabels, samples.take(j as int))
                    + sample_line(mv.name, slabels, samples[j as int]));
                lemma_render_samples_push(mv.name, slabels, samples.take(j as int), samples[j as int]);
                assert(samples.take(j as int).push(samples[j as int]) =~= samples.take(j as int + 1));
            }
            j += 1;
        }
        proof {
            assert(samples.take(samples.len() as int) =~= samples);
            lemma_render_slots_push(mv.name, mv.slots.take(i as int), mv.slots[i as int]);
            assert(mv.slots.take(i as int).push(mv.slots[i as int]) =~= mv.slots.take(i as int + 1));
        }
        i += 1;
    }
    proof {
        assert(mv.slots.take(mv.slots.len() as int) =~= mv.slots);
        assert(buf@ =~= old(buf)@ + render_metric(mv));
    }
}

/// Renders the whole registry into the text wire format: every live metric
/// with at least one recorded label combination, in registry order; dropped
/// and empty metrics contribute nothing.
pub fn text(registry: &Registry) -> (r: Formatted)
    requires
        registry.inv(),
    ensures
        r.body@ == render_entries(registry.rv()),
        r.content_type@ == "text/plain; version=0.0.4"@,
{
    let ghost entries = registry.rv();
    let mut buf = String::new();
    let mut i: usize = 0;
    proof {
        assert(entries.take(0) =~= Seq::<EntryV>::empty());
        assert(buf@ + render_entries(entries.take(0)) =~= buf@);
        assert(buf@ =~= render_entries(entries.take(0)));
    }
    while i < registry.entries.len()
        invariant
            registry.inv(),
            entries == registry.rv(),
            entries.len() == registry.entries@.len(),
            i <= entries.len(),
            buf@ == render_entries(entries.take(i as int)),
        decreases entries.len() - i,
    {
        match &registry.entries[i].decl {
            None => {
                proof {
                    assert(entries[i as int].live is None);
                }
            },
            Some(Declaration::Counter(m)) => render_metric_text(&mut buf, m),
            Some(Declaration::Gauge(m)) => render_metric_text(&mut buf, m),
            Some(Declaration::Histogram(m)) => render_metric_text(&mut buf, m),
            Some(Declaration::Summary(m)) => render_metric_text(&mut buf, m),
        }
        proof {
            lemma_render_entries_push(entries.take(i as int), entries[i as int]);
            assert(entries.take(i as int).push(entries[i as int]) =~= entries.take(i as int + 1));
            assert(buf@ =~= render_entries(entries.take(i as int + 1)));
        }
        i += 1;
    }
    proof {
        assert(entries.take(entries.len() as int) =~= entries);
    }
    Formatted { content_type: "text/plain; version=0.0.4", body: buf }
}

/// An entry whose owning handle was dropped adds nothing to the rendered
/// body: the exposition with it present equals the exposition with it
/// removed, on this and every later call while it stays dropped.
pub proof fn lemma_dead_entry_renders_nothing(entries: Seq<EntryV>, i: int)
    requires
        0 <= i < entries.len(),
        entries[i].live is None,
    ensures
        render_entries(entries) == render_entries(entries.remove(i)),
{
    lemma_silent_entry(entries, i);
}

/// A live metric with zero recorded label combinations adds nothing to the
/// rendered body: not even a bare `# TYPE` line.
pub proof fn lemma_empty_metric_renders_nothing(entries: Seq<EntryV>, i: int)
    requires
        0 <= i < entries.len(),
        entries[i].live matches Some(mv) && mv.slots.len() == 0,
    ensures
        render_entries(entries) == render_entries(entries.remove(i)),
{
    lemma_silent_entry(entries, i);
}

proof fn lemma_silent_entry(entries: Seq<EntryV>, i: int)
    requires
        0 <= i < entries.len(),
        render_entry(entries[i]) == Seq::<char>::empty(),
    ensures
        render_entries(entries) == render_entries(entries.remove(i)),
    decreases i,
{
    if i == 0 {
        assert(entries.remove(0) =~= entries.drop_first());
        assert(render_entries(entries) =~= render_entries(entries.drop_first()));
    } else {
        lemma_silent_entry(entries.drop_first(), i - 1);
        assert(entries.drop_first().remove(i - 1) =~= entries.remove(i).drop_first());
        assert(render_entries(entries) =~= render_entries(entries.remove(i)));
    }
}

} // verus!
