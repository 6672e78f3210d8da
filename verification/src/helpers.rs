//! Label keying: validation of a supplied label set against a metric's
//! declared label names, and the deterministic hash used as the storage key.
//! Also the construction of a histogram's bucket table from its bounds.

use crate::numbers::{dec_str, int_str, push_i64, push_u64};
use crate::Error;
use vstd::prelude::*;
use vstd::string::StringExecFns;

verus! {

/// Seed of the label hash.
pub const HASH_SEED: u64 = 0xcbf2_9ce4_8422_2325;

/// Mixed in ahead of every label value, so that a value boundary differs
/// from any byte.
pub const HASH_MARK: u64 = 0x100;

/// One mixing step of the hash: rotate and fold in `x`.
pub open spec fn mix(h: u64, x: u64) -> u64 {
    ((h << 7) | (h >> 57)) ^ x
}

fn mix_exec(h: u64, x: u64) -> (r: u64)
    ensures
        r == mix(h, x),
{
    ((h << 7) | (h >> 57)) ^ x
}

/// The hash after folding every byte of `s` into `h`, in order.
pub open spec fn hash_bytes(h: u64, s: Seq<u8>) -> u64
    decreases s.len(),
{
    if s.len() == 0 {
        h
    } else {
        hash_bytes(mix(h, s[0] as u64), s.drop_first())
    }
}

/// The hash after folding one label value into `h`: a boundary mark, then
/// the value's UTF-8 bytes.
pub open spec fn hash_string(h: u64, s: Seq<char>) -> u64 {
    hash_bytes(mix(h, HASH_MARK), vstd::utf8::encode_utf8(s))
}

fn hash_string_exec(h: u64, s: &String) -> (r: u64)
    ensures
        r == hash_string(h, s@),
{
    let mut h2 = mix_exec(h, HASH_MARK);
    let bytes = s.as_str().as_bytes();
    let ghost all = bytes@;
    proof {
        assert(all.skip(0) =~= all);
    }
    let mut k: usize = 0;
    while k < bytes.len()
        invariant
            k <= all.len(),
            bytes@ == all,
            hash_string(h, s@) == hash_bytes(h2, all.skip(k as int)),
        decreases all.len() - k,
    {
        proof {
            assert(all.skip(k as int)[0] == all[k as int]);
            assert(all.skip(k as int).drop_first() =~= all.skip(k as int + 1));
        }
        h2 = mix_exec(h2, bytes[k] as u64);
        k += 1;
    }
    h2
}

/// The value of the first pair of `labels` whose name is `name`.
pub open spec fn find_value(labels: Seq<(Seq<char>, Seq<char>)>, name: Seq<char>) -> Option<
    Seq<char>,
>
    decreases labels.len(),
{
    if labels.len() == 0 {
        None
    } else if labels[0].0 == name {
        Some(labels[0].1)
    } else {
        find_value(labels.drop_first(), name)
    }
}

/// Whether a supplied label set matches the declared names: same
/// cardinality, and every declared name present.
pub open spec fn labels_match(
    required: Seq<Seq<char>>,
    labels: Seq<(Seq<char>, Seq<char>)>,
) -> bool {
    &&& labels.len() == required.len()
    &&& forall|i: int| 0 <= i < required.len() ==> find_value(labels, #[trigger] required[i]) is Some
}

/// The hash after folding, for each declared name from `required` in its
/// declared order, the value supplied for it.
pub open spec fn hash_from(
    h: u64,
    required: Seq<Seq<char>>,
    labels: Seq<(Seq<char>, Seq<char>)>,
) -> u64
    decreases required.len(),
{
    if required.len() == 0 {
        h
    } else {
        hash_from(hash_string(h, find_value(labels, required[0]).unwrap()), required.drop_first(), labels)
    }
}

/// The storage key of a label set: a deterministic hash of the supplied
/// values taken in declared-name order, so the caller's pair order cannot
/// matter.
pub open spec fn spec_hash_labels(
    required: Seq<Seq<char>>,
    labels: Seq<(Seq<char>, Seq<char>)>,
) -> u64 {
    hash_from(HASH_SEED, required, labels)
}

/// The first declared name that the supplied set is missing.
pub open spec fn first_missing(
    required: Seq<Seq<char>>,
    labels: Seq<(Seq<char>, Seq<char>)>,
) -> Seq<char>
    decreases required.len(),
{
    if required.len() == 0 {
        Seq::empty()
    } else if find_value(labels, required[0]) is None {
        required[0]
    } else {
        first_missing(required.drop_first(), labels)
    }
}

/// The reason string reported when a label set does not match.
pub open spec fn mismatch_reason(
    required: Seq<Seq<char>>,
    labels: Seq<(Seq<char>, Seq<char>)>,
) -> Seq<char> {
    if labels.len() != required.len() {
        "different length: "@ + dec_str(labels.len()) + " vs "@ + dec_str(required.len())
    } else {
        "Missing "@ + first_missing(required, labels) + " label"@
    }
}

proof fn lemma_find_value_first(labels: Seq<(Seq<char>, Seq<char>)>, name: Seq<char>, j: int)
    requires
        0 <= j < labels.len(),
        labels[j].0 == name,
        forall|k: int| 0 <= k < j ==> (#[trigger] labels[k]).0 != name,
    ensures
        find_value(labels, name) == Some(labels[j].1),
    decreases j,
{
    if j > 0 {
        lemma_find_value_first(labels.drop_first(), name, j - 1);
    }
}

proof fn lemma_find_value_none(labels: Seq<(Seq<char>, Seq<char>)>, name: Seq<char>)
    requires
        forall|k: int| 0 <= k < labels.len() ==> (#[trigger] labels[k]).0 != name,
    ensures
        find_value(labels, name) is None,
    decreases labels.len(),
{
    if labels.len() > 0 {
        lemma_find_value_none(labels.drop_first(), name);
    }
}

proof fn lemma_first_missing_at(
    required: Seq<Seq<char>>,
    labels: Seq<(Seq<char>, Seq<char>)>,
    i: int,
)
    requires
        0 <= i < required.len(),
        forall|j: int| 0 <= j < i ==> find_value(labels, #[trigger] required[j]) is Some,
        find_value(labels, required[i]) is None,
    ensures
        first_missing(required, labels) == required[i],
    decreases i,
{
    if i > 0 {
        lemma_first_missing_at(required.drop_first(), labels, i - 1);
    }
}

/// Looks up the first pair of `labels` carrying `name`.
fn find_label(labels: &Vec<(String, String)>, name: &String) -> (r: Option<usize>)
    ensures
        r matches Some(j) ==> j < labels@.len() && labels@[j as int].0@ == name@ && find_value(
            labels.deep_view(),
            name@,
        ) == Some(labels.deep_view()[j as int].1),
        r is None ==> find_value(labels.deep_view(), name@) is None,
{
    let mut j: usize = 0;
    while j < labels.len()
        invariant
            j <= labels@.len(),
            forall|k: int| 0 <= k < j ==> (#[trigger] labels.deep_view()[k]).0 != name@,
        decreases labels@.len() - j,
    {
        if labels[j].0 == *name {
            proof {
                lemma_find_value_first(labels.deep_view(), name@, j as int);
            }
            return Some(j);
        }
        j += 1;
    }
    proof {
        lemma_find_value_none(labels.deep_view(), name@);
    }
    None
}

/// Validates `labels` against the declared `required` names and, when they
/// match, computes the storage key: the hash of the supplied values taken
/// in declared-name order.
pub fn hash_labels(required: &Vec<String>, labels: &Vec<(String, String)>) -> (r: Result<
    u64,
    Error,
>)
    ensures
        (r is Ok) == labels_match(required.deep_view(), labels.deep_view()),
        r matches Ok(h) ==> h == spec_hash_labels(required.deep_view(), labels.deep_view()),
        r matches Err(e) ==> (e matches Error::InconsistentLabels(reason) && reason@
            == mismatch_reason(required.deep_view(), labels.deep_view())),
{
    let ghost rdv = required.deep_view();
    let ghost ldv = labels.deep_view();
    if labels.len() != required.len() {
        let mut reason = String::from_str("different length: ");
        push_u64(&mut reason, labels.len() as u64);
        reason.append(" vs ");
        push_u64(&mut reason, required.len() as u64);
        proof {
            assert(reason@ =~= mismatch_reason(rdv, ldv));
        }
        return Err(Error::InconsistentLabels(reason));
    }
    let mut h: u64 = HASH_SEED;
    proof {
        assert(rdv.skip(0) =~= rdv);
    }
    let mut i: usize = 0;
    while i < required.len()
        invariant
            i <= rdv.len(),
            rdv.len() == required.deep_view().len(),
            required.deep_view() == rdv,
            labels.deep_view() == ldv,
            ldv.len() == rdv.len(),
            forall|j: int| 0 <= j < i ==> find_value(ldv, #[trigger] rdv[j]) is Some,
            spec_hash_labels(rdv, ldv) == hash_from(h, rdv.skip(i as int), ldv),
        decreases rdv.len() - i,
    {
        let name = &required[i];
        proof {
            assert(rdv.skip(i as int)[0] == rdv[i as int]);
            assert(name@ == rdv[i as int]);
        }
        match find_label(labels, name) {
            Some(j) => {
                let value = &labels[j].1;
                proof {
                    assert(rdv.skip(i as int).drop_first() =~= rdv.skip(i as int + 1));
                }
                h = hash_string_exec(h, value);
                i += 1;
            },
            None => {
                proof {
                    lemma_first_missing_at(rdv, ldv, i as int);
                }
                let mut reason = String::from_str("Missing ");
                reason.append(name.as_str());
                reason.append(" label");
                proof {
                    assert(reason@ =~= mismatch_reason(rdv, ldv));
                }
                return Err(Error::InconsistentLabels(reason));
            },
        }
    }
    proof {
        assert(hash_from(h, rdv.skip(rdv.len() as int), ldv) == h);
    }
    Ok(h)
}

/// Two supplied label sets holding the same pairs — each with no repeated
/// name — resolve every name to the same value, and so hash to the same
/// storage key, whatever order their pairs come in.
pub proof fn lemma_hash_labels_permutation(
    required: Seq<Seq<char>>,
    l1: Seq<(Seq<char>, Seq<char>)>,
    l2: Seq<(Seq<char>, Seq<char>)>,
)
    requires
        forall|i: int, j: int|
            0 <= i < j < l1.len() ==> (#[trigger] l1[i]).0 != (#[trigger] l1[j]).0,
        forall|i: int, j: int|
            0 <= i < j < l2.len() ==> (#[trigger] l2[i]).0 != (#[trigger] l2[j]).0,
        forall|p: (Seq<char>, Seq<char>)| l1.contains(p) <==> l2.contains(p),
    ensures
        forall|name: Seq<char>| #[trigger] find_value(l1, name) == find_value(l2, name),
        spec_hash_labels(required, l1) == spec_hash_labels(required, l2),
{
    assert forall|name: Seq<char>| #[trigger] find_value(l1, name) == find_value(l2, name) by {
        lemma_find_value_agrees(l1, l2, name);
    }
    lemma_hash_from_agrees(HASH_SEED, required, l1, l2);
}

proof fn lemma_find_value_contains(labels: Seq<(Seq<char>, Seq<char>)>, name: Seq<char>)
    requires
        forall|i: int, j: int|
            0 <= i < j < labels.len() ==> (#[trigger] labels[i]).0 != (#[trigger] labels[j]).0,
    ensures
        find_value(labels, name) matches Some(v) ==> labels.contains((name, v)),
        find_value(labels, name) is None ==> forall|i: int|
            0 <= i < labels.len() ==> (#[trigger] labels[i]).0 != name,
        forall|v: Seq<char>|
            labels.contains((name, v)) ==> find_value(labels, name) == Some(v),
    decreases labels.len(),
{
    if labels.len() > 0 {
        let rest = labels.drop_first();
        lemma_find_value_contains(rest, name);
        assert forall|v: Seq<char>| labels.contains((name, v)) implies find_value(labels, name)
            == Some(v) by {
            let k = choose|k: int| 0 <= k < labels.len() && labels[k] == (name, v);
            if labels[0].0 == name {
                if k != 0 {
                    assert(labels[0].0 != labels[k].0);
                }
            } else {
                assert(rest[k - 1] == labels[k]);
                assert(rest.contains((name, v)));
            }
        }
        if find_value(labels, name) is Some {
            let v = find_value(labels, name).unwrap();
            if labels[0].0 == name {
                assert(labels.contains(labels[0]));
            } else {
                assert(rest.contains((name, v)));
                let k = choose|k: int| 0 <= k < rest.len() && rest[k] == (name, v);
                assert(labels[k + 1] == rest[k]);
                assert(labels.contains(labels[k + 1]));
            }
        }
        if find_value(labels, name) is None {
            assert forall|i: int| 0 <= i < labels.len() implies (#[trigger] labels[i]).0
                != name by {
                if i > 0 {
                    assert(rest[i - 1] == labels[i]);
                }
            }
        }
    }
}

proof fn lemma_find_value_agrees(
    l1: Seq<(Seq<char>, Seq<char>)>,
    l2: Seq<(Seq<char>, Seq<char>)>,
    name: Seq<char>,
)
    requires
        forall|i: int, j: int|
            0 <= i < j < l1.len() ==> (#[trigger] l1[i]).0 != (#[trigger] l1[j]).0,
        forall|i: int, j: int|
            0 <= i < j < l2.len() ==> (#[trigger] l2[i]).0 != (#[trigger] l2[j]).0,
        forall|p: (Seq<char>, Seq<char>)| l1.contains(p) <==> l2.contains(p),
    ensures
        find_value(l1, name) == find_value(l2, name),
{
    lemma_find_value_contains(l1, name);
    lemma_find_value_contains(l2, name);
    if find_value(l1, name) is Some {
        let v = find_value(l1, name).unwrap();
        assert(l1.contains((name, v)));
        assert(l2.contains((name, v)));
    } else {
        if find_value(l2, name) is Some {
            let v = find_value(l2, name).unwrap();
            assert(l2.contains((name, v)));
            assert(l1.contains((name, v)));
            let k = choose|k: int| 0 <= k < l1.len() && l1[k] == (name, v);
            assert(l1[k].0 == name);
        }
    }
}

proof fn lemma_hash_from_agrees(
    h: u64,
    required: Seq<Seq<char>>,
    l1: Seq<(Seq<char>, Seq<char>)>,
    l2: Seq<(Seq<char>, Seq<char>)>,
)
    requires
        forall|name: Seq<char>| #[trigger] find_value(l1, name) == find_value(l2, name),
    ensures
        hash_from(h, required, l1) == hash_from(h, required, l2),
    decreases required.len(),
{
    if required.len() > 0 {
        lemma_hash_from_agrees(
            hash_string(h, find_value(l1, required[0]).unwrap()),
            required.drop_first(),
            l1,
            l2,
        );
    }
}

/// Expands a histogram's ascending bounds into its bucket table: a zeroed
/// cumulative count per bound, the catch-all bucket behind them, and the
/// rendered bound text for each.
pub fn buckets_to_counts(buckets: Vec<i64>) -> (r: (Vec<(i64, i64)>, Vec<String>))
    requires
        forall|i: int| 0 <= i < buckets@.len() ==> #[trigger] buckets@[i] < i64::MAX,
    ensures
        r.0@.len() == buckets@.len() + 1,
        r.1@.len() == buckets@.len() + 1,
        forall|i: int|
            0 <= i < buckets@.len() ==> (#[trigger] r.0@[i]).0 == buckets@[i] && r.0@[i].1 == 0,
        r.0@.last().0 == i64::MAX && r.0@.last().1 == 0,
        forall|i: int|
            0 <= i < buckets@.len() ==> (#[trigger] r.1@[i])@ == int_str(buckets@[i] as int),
        r.1@.last()@ == "+Inf"@,
{
    let mut counts: Vec<(i64, i64)> = Vec::new();
    let mut labels: Vec<String> = Vec::new();
    let mut i: usize = 0;
    while i < buckets.len()
        invariant
            i <= buckets@.len(),
            counts@.len() == i,
            labels@.len() == i,
            forall|i: int| 0 <= i < buckets@.len() ==> #[trigger] buckets@[i] < i64::MAX,
            forall|j: int|
                0 <= j < i ==> (#[trigger] counts@[j]).0 == buckets@[j] && counts@[j].1 == 0,
            forall|j: int| 0 <= j < i ==> (#[trigger] labels@[j])@ == int_str(buckets@[j] as int),
        decreases buckets@.len() - i,
    {
        let bucket = buckets[i];
        counts.push((bucket, 0));
        let mut text = String::new();
        push_i64(&mut text, bucket);
        proof {
            assert(text@ =~= int_str(bucket as int));
        }
        labels.push(text);
        i += 1;
    }
    counts.push((i64::MAX, 0));
    labels.push(String::from_str("+Inf"));
    (counts, labels)
}

} // verus!
