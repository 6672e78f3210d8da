use prometrics::expose::Format;
use prometrics::helpers::{buckets_to_counts, hash_labels};
use prometrics::Error;
use prometrics::Registry;

fn pairs(ps: &[(&str, &str)]) -> Vec<(String, String)> {
    ps.iter().map(|&(k, v)| (k.to_string(), v.to_string())).collect()
}

#[test]
fn counter() {
    let mut registry = Registry::new();
    let counter = registry
        .counter("main".to_string(), None, vec!["path".to_string()])
        .unwrap();
    {
        let counter = registry.counter_mut(&counter);
        let slot = counter.labels(&pairs(&[("path", "root")])).unwrap();
        let c1 = counter.accumulator(slot);
        c1.inc();
        c1.inc();
    }
    let res = registry.expose(Format::Text).body;
    assert_eq!(
        "# TYPE main counter\n\
         main{path=\"root\"} 2\n",
        res
    )
}

#[test]
fn histogram() {
    let mut registry = Registry::new();
    let histogram = registry
        .histogram(
            "main".to_string(),
            None,
            vec!["path".to_string()],
            vec![1, 5, 10, 50, 100, 300],
        )
        .unwrap();
    {
        let histogram = registry.histogram_mut(&histogram);
        let slot = histogram.labels(&pairs(&[("path", "root")])).unwrap();
        let c1 = histogram.accumulator(slot);
        c1.observe(30);
        c1.observe(250);
    }
    let res = registry.expose(Format::Text).body;
    assert_eq!(
        "# TYPE main histogram\n\
         main{path=\"root\",le=\"1\"} 0\n\
         main{path=\"root\",le=\"5\"} 0\n\
         main{path=\"root\",le=\"10\"} 0\n\
         main{path=\"root\",le=\"50\"} 1\n\
         main{path=\"root\",le=\"100\"} 1\n\
         main{path=\"root\",le=\"300\"} 2\n\
         main_sum{path=\"root\"} 280\n\
         main_count{path=\"root\"} 2\n",
        res
    );
}

#[test]
fn summary() {
    let mut registry = Registry::new();
    let summary = registry
        .summary("main".to_string(), None, vec!["path".to_string()])
        .unwrap();
    {
        let summary = registry.summary_mut(&summary);
        let slot = summary.labels(&pairs(&[("path", "root")])).unwrap();
        let c1 = summary.accumulator(slot);
        c1.observe(30);
        c1.observe(250);
    }
    let res = registry.expose(Format::Text).body;
    assert_eq!(
        "# TYPE main summary\n\
         main_sum{path=\"root\"} 280\n\
         main_count{path=\"root\"} 2\n",
        res
    );
}

#[test]
fn gauge_moves_both_ways() {
    let mut registry = Registry::new();
    let gauge = registry.gauge("g".to_string(), None, vec![]).unwrap();
    {
        let gauge = registry.gauge_mut(&gauge);
        let slot = gauge.labels(&pairs(&[])).unwrap();
        let g = gauge.accumulator(slot);
        g.set(5);
        g.add(3);
        g.sub(2);
        g.inc();
        g.dec();
    }
    let res = registry.expose(Format::Text).body;
    assert_eq!(
        "# TYPE g gauge\n\
         g 6\n",
        res
    );
}

#[test]
fn gauge_renders_negative_values() {
    let mut registry = Registry::new();
    let gauge = registry.gauge("g".to_string(), None, vec![]).unwrap();
    {
        let gauge = registry.gauge_mut(&gauge);
        let slot = gauge.labels(&pairs(&[])).unwrap();
        gauge.accumulator(slot).sub(5);
    }
    let res = registry.expose(Format::Text).body;
    assert_eq!(
        "# TYPE g gauge\n\
         g -5\n",
        res
    );
}

#[test]
fn help_text_is_rendered_when_present() {
    let mut registry = Registry::new();
    let counter = registry
        .counter("main".to_string(), Some("Requests total".to_string()), vec![])
        .unwrap();
    {
        let counter = registry.counter_mut(&counter);
        let slot = counter.labels(&pairs(&[])).unwrap();
        counter.accumulator(slot).inc();
    }
    let exposed = registry.expose(Format::Text);
    assert_eq!("text/plain; version=0.0.4", exposed.content_type);
    assert_eq!(
        "# HELP main Requests total\n\
         # TYPE main counter\n\
         main 1\n",
        exposed.body
    );
}

#[test]
fn permuted_label_sets_share_one_accumulator() {
    let mut registry = Registry::new();
    let counter = registry
        .counter(
            "main".to_string(),
            None,
            vec!["a".to_string(), "b".to_string()],
        )
        .unwrap();
    {
        let counter = registry.counter_mut(&counter);
        let first = counter.labels(&pairs(&[("a", "1"), ("b", "2")])).unwrap();
        counter.accumulator(first).inc();
        let second = counter.labels(&pairs(&[("b", "2"), ("a", "1")])).unwrap();
        assert_eq!(first, second);
        counter.accumulator(second).inc();
    }
    let res = registry.expose(Format::Text).body;
    assert_eq!(
        "# TYPE main counter\n\
         main{a=\"1\",b=\"2\"} 2\n",
        res
    );
}

#[test]
fn hash_labels_ignores_pair_order() {
    let names = vec!["a".to_string(), "b".to_string()];
    let h1 = hash_labels(&names, &pairs(&[("a", "1"), ("b", "2")])).unwrap();
    let h2 = hash_labels(&names, &pairs(&[("b", "2"), ("a", "1")])).unwrap();
    assert_eq!(h1, h2);
    let h3 = hash_labels(&names, &pairs(&[("a", "2"), ("b", "1")])).unwrap();
    assert_ne!(h1, h3);
}

#[test]
fn mismatched_cardinality_is_rejected() {
    let mut registry = Registry::new();
    let counter = registry
        .counter("main".to_string(), None, vec!["path".to_string()])
        .unwrap();
    let err = {
        let counter = registry.counter_mut(&counter);
        counter
            .labels(&pairs(&[("path", "root"), ("extra", "x")]))
            .unwrap_err()
    };
    match err {
        Error::InconsistentLabels(reason) => assert_eq!("different length: 2 vs 1", reason),
        _ => panic!("expected InconsistentLabels"),
    }
    assert_eq!("", registry.expose(Format::Text).body);
}

#[test]
fn missing_declared_name_is_rejected() {
    let mut registry = Registry::new();
    let counter = registry
        .counter("main".to_string(), None, vec!["path".to_string()])
        .unwrap();
    let err = {
        let counter = registry.counter_mut(&counter);
        counter.labels(&pairs(&[("other", "x")])).unwrap_err()
    };
    match &err {
        Error::InconsistentLabels(reason) => assert_eq!("Missing path label", reason),
        _ => panic!("expected InconsistentLabels"),
    }
    assert_eq!("InconsistentLabels", err.description());
    assert_eq!("", registry.expose(Format::Text).body);
}

#[test]
fn second_registration_of_a_live_name_fails() {
    let mut registry = Registry::new();
    let counter = registry
        .counter("main".to_string(), None, vec![])
        .unwrap();
    {
        let counter = registry.counter_mut(&counter);
        let slot = counter.labels(&pairs(&[])).unwrap();
        counter.accumulator(slot).inc();
    }
    let err = registry
        .gauge("main".to_string(), None, vec![])
        .unwrap_err();
    assert!(matches!(err, Error::MetricAlreadyExists));
    assert_eq!("Already exists", err.description());
    let res = registry.expose(Format::Text).body;
    assert_eq!(
        "# TYPE main counter\n\
         main 1\n",
        res
    );
}

#[test]
fn released_handle_contributes_nothing_and_frees_the_name() {
    let mut registry = Registry::new();
    let counter = registry
        .counter("main".to_string(), None, vec![])
        .unwrap();
    {
        let counter = registry.counter_mut(&counter);
        let slot = counter.labels(&pairs(&[])).unwrap();
        counter.accumulator(slot).inc();
    }
    registry.release(counter);
    assert_eq!("", registry.expose(Format::Text).body);
    assert_eq!("", registry.expose(Format::Text).body);
    let again = registry.counter("main".to_string(), None, vec![]);
    assert!(again.is_ok());
    {
        let counter = registry.counter_mut(&again.unwrap());
        let slot = counter.labels(&pairs(&[])).unwrap();
        counter.accumulator(slot).add(7);
    }
    assert_eq!(
        "# TYPE main counter\n\
         main 7\n",
        registry.expose(Format::Text).body
    );
}

#[test]
fn metric_without_recorded_labels_is_silent() {
    let mut registry = Registry::new();
    let _summary = registry
        .summary("main".to_string(), None, vec!["path".to_string()])
        .unwrap();
    assert_eq!("", registry.expose(Format::Text).body);
}

#[test]
fn registry_renders_in_registration_order() {
    let mut registry = Registry::new();
    let a = registry.counter("a".to_string(), None, vec![]).unwrap();
    let b = registry.counter("b".to_string(), None, vec![]).unwrap();
    {
        let m = registry.counter_mut(&a);
        let slot = m.labels(&pairs(&[])).unwrap();
        m.accumulator(slot).inc();
    }
    {
        let m = registry.counter_mut(&b);
        let slot = m.labels(&pairs(&[])).unwrap();
        m.accumulator(slot).add(2);
    }
    assert_eq!(
        "# TYPE a counter\n\
         a 1\n\
         # TYPE b counter\n\
         b 2\n",
        registry.expose(Format::Text).body
    );
}

#[test]
fn register_accepts_a_hand_built_metric() {
    let mut registry = Registry::new();
    let m = prometrics::Metric::new(
        prometrics::metrics::Counter::new(),
        "built".to_string(),
        None,
        vec![],
    );
    let id = registry
        .register("built".to_string(), prometrics::Declaration::Counter(m))
        .unwrap();
    {
        let c = registry.counter_mut(&id);
        let slot = c.labels(&pairs(&[])).unwrap();
        c.accumulator(slot).add(3);
    }
    assert_eq!(
        "# TYPE built counter\n\
         built 3\n",
        registry.expose(Format::Text).body
    );
}

#[test]
fn decimal_rendering_handles_edges() {
    let mut s = String::new();
    prometrics::numbers::push_u64(&mut s, 0);
    s.push(' ');
    prometrics::numbers::push_u64(&mut s, 1234567890123);
    s.push(' ');
    prometrics::numbers::push_i64(&mut s, -1);
    s.push(' ');
    prometrics::numbers::push_i64(&mut s, i64::MIN);
    s.push(' ');
    prometrics::numbers::push_i64(&mut s, i64::MAX);
    assert_eq!(
        "0 1234567890123 -1 -9223372036854775808 9223372036854775807",
        s
    );
}

#[test]
fn gauge_set_reaches_the_extremes() {
    let mut registry = Registry::new();
    let gauge = registry.gauge("g".to_string(), None, vec![]).unwrap();
    {
        let gauge = registry.gauge_mut(&gauge);
        let slot = gauge.labels(&pairs(&[])).unwrap();
        gauge.accumulator(slot).set(i64::MIN);
    }
    assert_eq!(
        "# TYPE g gauge\n\
         g -9223372036854775808\n",
        registry.expose(Format::Text).body
    );
}

#[test]
fn fresh_histogram_exposes_zeroed_buckets() {
    let mut registry = Registry::new();
    let histogram = registry
        .histogram("h".to_string(), None, vec![], vec![2, 4])
        .unwrap();
    {
        let histogram = registry.histogram_mut(&histogram);
        histogram.labels(&pairs(&[])).unwrap();
    }
    assert_eq!(
        "# TYPE h histogram\n\
         h{le=\"2\"} 0\n\
         h{le=\"4\"} 0\n\
         h_sum 0\n\
         h_count 0\n",
        registry.expose(Format::Text).body
    );
}

#[test]
fn bucket_table_carries_bound_text_and_catch_all() {
    let (counts, labels) = buckets_to_counts(vec![1, 5, 10]);
    assert_eq!(4, counts.len());
    assert_eq!(4, labels.len());
    assert_eq!((1, 0), counts[0]);
    assert_eq!((5, 0), counts[1]);
    assert_eq!((10, 0), counts[2]);
    assert_eq!(i64::MAX, counts[3].0);
    assert_eq!(0, counts[3].1);
    assert_eq!("1", labels[0]);
    assert_eq!("5", labels[1]);
    assert_eq!("10", labels[2]);
    assert_eq!("+Inf", labels[3]);
}
