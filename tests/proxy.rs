use metrics_proxy::config::{
    default_label_separator, default_source_labels, default_timeout, ConnectTo, HttpProxyTarget,
    LabelFilter, LabelFilterAction,
};
use metrics_proxy::exposition::{
    Bound, HistogramCount, Sample, SampleValue, Scrape, SummaryCount,
};
use metrics_proxy::proxy::MetricsProxier;
use metrics_proxy::render::render_scrape_data;

fn convert(parsed: prometheus_parse::Scrape) -> Scrape {
    let samples = parsed
        .samples
        .into_iter()
        .map(|s| Sample {
            labels: s.labels.iter().map(|(k, v)| (k.clone(), v.clone())).collect(),
            value: match s.value {
                prometheus_parse::Value::Untyped(v) => SampleValue::Untyped(format!("{:e}", v)),
                prometheus_parse::Value::Counter(v) => SampleValue::Counter(format!("{:e}", v)),
                prometheus_parse::Value::Gauge(v) => SampleValue::Gauge(format!("{:e}", v)),
                prometheus_parse::Value::Histogram(bs) => SampleValue::Histogram(
                    bs.iter()
                        .map(|h| HistogramCount {
                            less_than: if h.less_than == f64::INFINITY {
                                Bound::PosInf
                            } else if h.less_than == f64::NEG_INFINITY {
                                Bound::NegInf
                            } else {
                                Bound::Finite(format!("{}", h.less_than))
                            },
                            count: format!("{:e}", h.count),
                        })
                        .collect(),
                ),
                prometheus_parse::Value::Summary(qs) => SampleValue::Summary(
                    qs.iter()
                        .map(|q| SummaryCount {
                            quantile: format!("{}", q.quantile),
                            count: format!("{:e}", q.count),
                        })
                        .collect(),
                ),
            },
            metric: s.metric,
            timestamp: Some(s.timestamp.timestamp_millis()),
        })
        .collect();
    Scrape { samples, docs: parsed.docs.into_iter().collect() }
}

struct TestPayload {
    sorted_text: String,
    parsed_scrape: Scrape,
}

impl TestPayload {
    fn from_scrape(scrape: Scrape) -> Self {
        let rendered = render_scrape_data(&scrape);
        let mut sorted_rendered: Vec<String> = rendered.lines().map(|s| s.to_owned()).collect();
        sorted_rendered.sort();
        TestPayload { sorted_text: sorted_rendered.join("\n"), parsed_scrape: scrape }
    }

    fn from_text(text: &str) -> Self {
        let parsed = prometheus_parse::Scrape::parse(text.lines().map(|s| Ok(s.to_owned()))).unwrap();
        TestPayload::from_scrape(convert(parsed))
    }
}

fn make_adapter_filter_tester(filters: Vec<LabelFilter>) -> MetricsProxier {
    MetricsProxier::from(HttpProxyTarget {
        connect_to: ConnectTo {
            url: "http://localhost:8080/metrics".to_string(),
            timeout: default_timeout(),
            cache_duration: 0,
        },
        label_filters: filters,
    })
}

fn name_filter(regex: &str, actions: Vec<LabelFilterAction>) -> LabelFilter {
    LabelFilter::new(default_source_labels(), default_label_separator(), regex, actions).unwrap()
}

const SOFTNET: &str = r#"
# HELP node_softnet_times_squeezed_total Number of times processing packets ran out of quota
# TYPE node_softnet_times_squeezed_total counter
node_softnet_times_squeezed_total{cpu="0"} 0
node_softnet_times_squeezed_total{cpu="1"} 0
node_softnet_times_squeezed_total{cpu="10"} 0
node_softnet_times_squeezed_total{cpu="11"} 0
node_softnet_times_squeezed_total{cpu="12"} 0
node_softnet_times_squeezed_total{cpu="13"} 0
node_softnet_times_squeezed_total{cpu="14"} 0
node_softnet_times_squeezed_total{cpu="15"} 0
node_softnet_times_squeezed_total{cpu="2"} 0
node_softnet_times_squeezed_total{cpu="3"} 0
node_softnet_times_squeezed_total{cpu="4"} 0
node_softnet_times_squeezed_total{cpu="5"} 0
node_softnet_times_squeezed_total{cpu="6"} 0
node_softnet_times_squeezed_total{cpu="7"} 0
node_softnet_times_squeezed_total{cpu="8"} 0
node_softnet_times_squeezed_total{cpu="9"} 0
"#;

#[test]
fn test_proxy_no_filtering() {
    let mut adapter = make_adapter_filter_tester(vec![]);
    let inp_ = TestPayload::from_text(SOFTNET);
    let exp_ = TestPayload::from_text(SOFTNET);
    let filtered = adapter.apply_filters(inp_.parsed_scrape, 0);
    let out_ = TestPayload::from_scrape(filtered);
    assert_eq!(exp_.sorted_text.as_str(), out_.sorted_text.as_str());
}

#[test]
fn test_proxy_one_label_filtering() {
    let keep_cpu_one = LabelFilter::new(
        vec!["cpu".to_string()],
        default_label_separator(),
        "1",
        vec![LabelFilterAction::Keep],
    )
    .unwrap();
    let mut adapter = make_adapter_filter_tester(vec![
        name_filter("node_softnet_times_squeezed_total", vec![LabelFilterAction::Drop]),
        keep_cpu_one,
    ]);
    let inp_ = TestPayload::from_text(SOFTNET);
    let exp_ = TestPayload::from_text(
        r#"
# HELP node_softnet_times_squeezed_total Number of times processing packets ran out of quota
# TYPE node_softnet_times_squeezed_total counter
node_softnet_times_squeezed_total{cpu="1"} 0
"#,
    );
    let filtered = adapter.apply_filters(inp_.parsed_scrape, 0);
    let out_ = TestPayload::from_scrape(filtered);
    assert_eq!(exp_.sorted_text.as_str(), out_.sorted_text.as_str());
}

#[test]
fn test_caching() {
    let ten_ms: u64 = 10_000_000;
    let mut adapter = make_adapter_filter_tester(vec![name_filter(
        "node_frobnicated",
        vec![LabelFilterAction::ReduceTimeResolution { resolution: ten_ms }],
    )]);
    let start: u64 = 1_000_000_000;

    // First scrape: nothing is cached yet, so the output is the input.
    let first_input = TestPayload::from_text(
        r#"
# HELP node_frobnicated Number of times processing packets ran out of quota
# TYPE node_frobnicated counter
node_frobnicated{cpu="0"} 0
"#,
    );
    let first_output =
        TestPayload::from_scrape(adapter.apply_filters(first_input.parsed_scrape.clone(), start));
    assert_eq!(first_input.sorted_text.as_str(), first_output.sorted_text.as_str());

    // Within the resolution the first value is passed on again.
    let second_input = TestPayload::from_text(
        r#"
# HELP node_frobnicated Number of times processing packets ran out of quota
# TYPE node_frobnicated counter
node_frobnicated{cpu="0"} 25
"#,
    );
    let second_output = TestPayload::from_scrape(
        adapter.apply_filters(second_input.parsed_scrape.clone(), start + ten_ms / 2),
    );
    assert_eq!(first_input.sorted_text.as_str(), second_output.sorted_text.as_str());

    // Once the resolution has passed, the new value comes through.
    let third_output = TestPayload::from_scrape(
        adapter.apply_filters(second_input.parsed_scrape.clone(), start + ten_ms + ten_ms / 2),
    );
    assert_eq!(second_input.sorted_text.as_str(), third_output.sorted_text.as_str());
}

#[test]
fn pass_through_keeps_help_and_type_lines() {
    let mut adapter = make_adapter_filter_tester(vec![]);
    let inp = TestPayload::from_text(SOFTNET);
    let out = render_scrape_data(&adapter.apply_filters(inp.parsed_scrape.clone(), 0));
    assert_eq!(out, render_scrape_data(&inp.parsed_scrape));
    let lines: Vec<&str> = out.lines().collect();
    assert_eq!(lines.len(), 18);
    assert_eq!(
        lines[0],
        "# HELP node_softnet_times_squeezed_total Number of times processing packets ran out of quota"
    );
    assert_eq!(lines[1], "# TYPE node_softnet_times_squeezed_total counter");
    assert_eq!(lines[2], "node_softnet_times_squeezed_total{cpu=\"0\"} 0e0");
}

#[test]
fn drop_then_keep_renders_exactly_one_line() {
    let keep_cpu_one = LabelFilter::new(
        vec!["cpu".to_string()],
        default_label_separator(),
        "1",
        vec![LabelFilterAction::Keep],
    )
    .unwrap();
    let mut adapter = make_adapter_filter_tester(vec![
        name_filter("node_softnet_times_squeezed_total", vec![LabelFilterAction::Drop]),
        keep_cpu_one,
    ]);
    let inp = TestPayload::from_text(SOFTNET);
    let out = render_scrape_data(&adapter.apply_filters(inp.parsed_scrape, 0));
    assert_eq!(
        out,
        "# HELP node_softnet_times_squeezed_total Number of times processing packets ran out of quota\n\
         # TYPE node_softnet_times_squeezed_total counter\n\
         node_softnet_times_squeezed_total{cpu=\"1\"} 0e0\n"
    );
}

#[test]
fn reduce_time_resolution_boundary_is_stale() {
    let ten_ms: u64 = 10_000_000;
    let mut adapter = make_adapter_filter_tester(vec![name_filter(
        "node_frobnicated",
        vec![LabelFilterAction::ReduceTimeResolution { resolution: ten_ms }],
    )]);
    let a = TestPayload::from_text("node_frobnicated{cpu=\"0\"} 0\n");
    let b = TestPayload::from_text("node_frobnicated{cpu=\"0\"} 25\n");
    let start: u64 = 50_000_000;
    adapter.apply_filters(a.parsed_scrape, start);
    // Exactly one resolution later the stored sample is stale.
    let out = render_scrape_data(&adapter.apply_filters(b.parsed_scrape, start + ten_ms));
    assert_eq!(out, "node_frobnicated{cpu=\"0\"} 2.5e1\n");
}

#[test]
fn reduce_time_resolution_alone_keeps_every_sample() {
    let mut adapter = make_adapter_filter_tester(vec![name_filter(
        "node_softnet_times_squeezed_total",
        vec![LabelFilterAction::ReduceTimeResolution { resolution: 1_000_000_000 }],
    )]);
    let inp = TestPayload::from_text(SOFTNET);
    let n = inp.parsed_scrape.samples.len();
    let first = adapter.apply_filters(inp.parsed_scrape.clone(), 10);
    assert_eq!(first.samples.len(), n);
    let second = adapter.apply_filters(inp.parsed_scrape.clone(), 20);
    assert_eq!(second.samples.len(), n);
    assert_eq!(second.docs, inp.parsed_scrape.docs);
    for (out, given) in second.samples.iter().zip(inp.parsed_scrape.samples.iter()) {
        assert_eq!(out.metric, given.metric);
        assert_eq!(out.labels, given.labels);
    }
}

#[test]
fn matching_drop_filters_leave_nothing() {
    let mut adapter = make_adapter_filter_tester(vec![
        name_filter(".*", vec![LabelFilterAction::Drop]),
        name_filter("node_.*", vec![LabelFilterAction::Drop, LabelFilterAction::Drop]),
    ]);
    let inp = TestPayload::from_text(SOFTNET);
    let out = adapter.apply_filters(inp.parsed_scrape, 0);
    assert!(out.samples.is_empty());
    assert!(out.docs.is_empty());
    assert_eq!(render_scrape_data(&out), "\n");
}

#[test]
fn regex_is_anchored() {
    let mut adapter = make_adapter_filter_tester(vec![name_filter(
        "node_softnet",
        vec![LabelFilterAction::Drop],
    )]);
    let inp = TestPayload::from_text(SOFTNET);
    let out = adapter.apply_filters(inp.parsed_scrape, 0);
    assert_eq!(out.samples.len(), 16);
}

#[test]
fn alternation_must_match_the_whole_value() {
    let mut adapter = make_adapter_filter_tester(vec![name_filter(
        "node_softnet|zzz",
        vec![LabelFilterAction::Drop],
    )]);
    let inp = TestPayload::from_text(SOFTNET);
    let out = adapter.apply_filters(inp.parsed_scrape, 0);
    assert_eq!(out.samples.len(), 16);
    let mut both = make_adapter_filter_tester(vec![name_filter(
        "zzz|node_softnet_times_squeezed_total",
        vec![LabelFilterAction::Drop],
    )]);
    let inp = TestPayload::from_text(SOFTNET);
    assert!(both.apply_filters(inp.parsed_scrape, 0).samples.is_empty());
}

#[test]
fn missing_label_joins_as_empty_string() {
    let filter = LabelFilter::new(
        vec!["cpu".to_string(), "mode".to_string()],
        "/".to_string(),
        "1/",
        vec![LabelFilterAction::Drop],
    )
    .unwrap();
    let mut adapter = make_adapter_filter_tester(vec![filter]);
    let inp = TestPayload::from_text(SOFTNET);
    let out = adapter.apply_filters(inp.parsed_scrape, 0);
    assert_eq!(out.samples.len(), 15);
    assert!(out.samples.iter().all(|s| s.labels[0].1 != "1"));
}

#[test]
fn invalid_regex_is_refused() {
    let r = LabelFilter::new(default_source_labels(), default_label_separator(), "(", vec![]);
    assert!(r.is_err());
}
