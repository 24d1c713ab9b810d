use metrics_proxy::exposition::{Bound, HistogramCount, Sample, SampleValue, Scrape, SummaryCount};
use metrics_proxy::render::{render_labels, render_sample, render_scrape_data};
use metrics_proxy::sample_cache::{OrderedLabelSet, SampleCacheStore};
use metrics_proxy::text::{compare_text, decimal_text};
use std::cmp::Ordering;

fn pairs(items: &[(&str, &str)]) -> Vec<(String, String)> {
    items.iter().map(|(a, b)| (a.to_string(), b.to_string())).collect()
}

fn gauge(metric: &str, labels: &[(&str, &str)], value: &str) -> Sample {
    Sample {
        metric: metric.to_string(),
        labels: pairs(labels),
        value: SampleValue::Gauge(value.to_string()),
        timestamp: None,
    }
}

#[test]
fn histogram_infinite_bounds_render_as_inf() {
    let s = Sample {
        metric: "req".to_string(),
        labels: pairs(&[("path", "/")]),
        value: SampleValue::Histogram(vec![
            HistogramCount { less_than: Bound::Finite("0.5".to_string()), count: "1e0".to_string() },
            HistogramCount { less_than: Bound::PosInf, count: "3e0".to_string() },
            HistogramCount { less_than: Bound::NegInf, count: "0e0".to_string() },
        ]),
        timestamp: None,
    };
    assert_eq!(
        render_sample(&s),
        vec![
            "req{le=\"0.5\",path=\"/\"} 1e0".to_string(),
            "req{le=\"+Inf\",path=\"/\"} 3e0".to_string(),
            "req{le=\"-Inf\",path=\"/\"} 0e0".to_string(),
        ]
    );
}

#[test]
fn summary_lines_carry_quantile_label() {
    let s = Sample {
        metric: "lat".to_string(),
        labels: vec![],
        value: SampleValue::Summary(vec![SummaryCount {
            quantile: "0.99".to_string(),
            count: "1.5e0".to_string(),
        }]),
        timestamp: None,
    };
    assert_eq!(render_sample(&s), vec!["lat{quantile=\"0.99\"} 1.5e0".to_string()]);
}

#[test]
fn empty_label_set_has_no_braces() {
    assert_eq!(render_sample(&gauge("up", &[], "1e0")), vec!["up 1e0".to_string()]);
    assert_eq!(render_labels(&vec![], None), "");
}

#[test]
fn labels_are_sorted_by_name() {
    let labels = pairs(&[("zone", "b"), ("a1", "x"), ("a", "y")]);
    assert_eq!(render_labels(&labels, None), "{a=\"y\",a1=\"x\",zone=\"b\"}");
    assert_eq!(
        render_labels(&labels, Some(("le".to_string(), "1".to_string()))),
        "{a=\"y\",a1=\"x\",le=\"1\",zone=\"b\"}"
    );
    let z = pairs(&[("z", "1")]);
    assert_eq!(
        render_labels(&z, Some(("le".to_string(), "+Inf".to_string()))),
        "{le=\"+Inf\",z=\"1\"}"
    );
}

#[test]
fn metrics_sorted_and_documented_once() {
    let scrape = Scrape {
        samples: vec![
            gauge("b_metric", &[("k", "2")], "2e0"),
            gauge("a_metric", &[], "1e0"),
            gauge("b_metric", &[("k", "1")], "1e0"),
        ],
        docs: pairs(&[("b_metric", "The b metric"), ("unused", "Nothing")]),
    };
    assert_eq!(
        render_scrape_data(&scrape),
        "a_metric 1e0\n\
         # HELP b_metric The b metric\n\
         # TYPE b_metric gauge\n\
         b_metric{k=\"2\"} 2e0\n\
         b_metric{k=\"1\"} 1e0\n"
    );
}

#[test]
fn type_word_follows_first_sample() {
    let scrape = Scrape {
        samples: vec![Sample {
            metric: "c".to_string(),
            labels: vec![],
            value: SampleValue::Counter("4e0".to_string()),
            timestamp: None,
        }],
        docs: pairs(&[("c", "help")]),
    };
    assert_eq!(render_scrape_data(&scrape), "# HELP c help\n# TYPE c counter\nc 4e0\n");
}

#[test]
fn empty_scrape_renders_single_newline() {
    let scrape = Scrape { samples: vec![], docs: vec![] };
    assert_eq!(render_scrape_data(&scrape), "\n");
}

#[test]
fn fingerprint_ignores_label_order() {
    let x = gauge("m", &[("a", "1"), ("b", "2")], "1e0");
    let y = gauge("m", &[("b", "2"), ("a", "1")], "5e0");
    let z = gauge("m", &[("a", "1"), ("b", "3")], "1e0");
    let w = gauge("n", &[("a", "1"), ("b", "2")], "1e0");
    let fx = OrderedLabelSet::from(&x);
    assert!(fx.same_as(&OrderedLabelSet::from(&y)));
    assert!(!fx.same_as(&OrderedLabelSet::from(&z)));
    assert!(!fx.same_as(&OrderedLabelSet::from(&w)));
    assert_eq!(fx.pairs, pairs(&[("__name__", "m"), ("a", "1"), ("b", "2")]));
}

#[test]
fn sample_cache_get_respects_staleness() {
    let mut cache = SampleCacheStore::new();
    let stored = gauge("m", &[("a", "1")], "1e0");
    cache.put(stored.clone(), 100);
    let probe = gauge("m", &[("a", "1")], "9e0");
    assert_eq!(cache.get(&probe, 109, 10), Some(stored.clone()));
    // saved_at == now - staleness is stale
    assert_eq!(cache.get(&probe, 110, 10), None);
    // now - staleness before the clock's origin
    assert_eq!(cache.get(&probe, 5, 10), None);
    assert_eq!(cache.get(&gauge("m", &[("a", "2")], "1e0"), 101, 10), None);
    let newer = gauge("m", &[("a", "1")], "2e0");
    cache.put(newer.clone(), 200);
    assert_eq!(cache.get(&probe, 201, 10), Some(newer));
}

#[test]
fn text_comparison_is_lexicographic() {
    assert_eq!(compare_text(&"a".to_string(), &"ab".to_string()), Ordering::Less);
    assert_eq!(compare_text(&"b".to_string(), &"ab".to_string()), Ordering::Greater);
    assert_eq!(compare_text(&"ab".to_string(), &"ab".to_string()), Ordering::Equal);
}

#[test]
fn decimal_text_of_numbers() {
    assert_eq!(decimal_text(0), "0");
    assert_eq!(decimal_text(1207), "1207");
}
