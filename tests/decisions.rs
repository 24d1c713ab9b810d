use metrics_proxy::config::LabelFilterAction;
use metrics_proxy::exposition::{Sample, SampleValue};
use metrics_proxy::filter::Decision;
use metrics_proxy::proxy::hop_by_hop;
use metrics_proxy::sample_cache::SampleCacheStore;

fn counter(value: &str) -> Sample {
    Sample {
        metric: "jobs".to_string(),
        labels: vec![("queue".to_string(), "a".to_string())],
        value: SampleValue::Counter(value.to_string()),
        timestamp: None,
    }
}

#[test]
fn later_actions_override_earlier_ones() {
    let cache = SampleCacheStore::new();
    let mut d = Decision { keep: None, cached: None, must_cache: false };
    d.apply_actions(&vec![LabelFilterAction::Keep, LabelFilterAction::Drop], &counter("1e0"), &cache, 0);
    assert_eq!(d.keep, Some(false));
    d.apply_actions(&vec![LabelFilterAction::Keep], &counter("1e0"), &cache, 0);
    assert_eq!(d.keep, Some(true));
    assert!(!d.must_cache);
}

#[test]
fn reduce_time_resolution_looks_up_the_cache() {
    let mut cache = SampleCacheStore::new();
    let stored = counter("1e0");
    cache.put(stored.clone(), 1_000);
    let rtr = vec![LabelFilterAction::ReduceTimeResolution { resolution: 500 }];

    let mut fresh = Decision { keep: None, cached: None, must_cache: false };
    fresh.apply_actions(&rtr, &counter("2e0"), &cache, 1_200);
    assert_eq!(fresh.cached, Some(stored));
    assert!(fresh.must_cache);
    assert_eq!(fresh.keep, None);

    let mut stale = Decision { keep: None, cached: None, must_cache: false };
    stale.apply_actions(&rtr, &counter("2e0"), &cache, 1_500);
    assert_eq!(stale.cached, None);
    assert!(stale.must_cache);
}

#[test]
fn hop_by_hop_names() {
    for name in ["keep-alive", "transfer-encoding", "te", "connection", "trailer", "upgrade",
        "proxy-authorization", "proxy-authenticate"]
    {
        assert!(hop_by_hop(&name.to_string()));
    }
    assert!(!hop_by_hop(&"content-type".to_string()));
    assert!(!hop_by_hop(&"Connection".to_string()));
}
