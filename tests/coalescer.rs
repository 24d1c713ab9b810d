use metrics_proxy::cache::{cache_key, Admission, CachedResponse, DeadlineCacher};
use metrics_proxy::client::{is_success, HttpError, ScrapeError};
use metrics_proxy::config::{default_timeout, ConnectTo, HttpProxyTarget};
use metrics_proxy::proxy::{
    fallback_headers, safely_clone_request_headers, safely_clone_response_headers, MetricsProxier,
};

fn response(status: u16, body: &str) -> CachedResponse {
    CachedResponse { status, headers: vec![], contents: body.to_string() }
}

fn proxier() -> MetricsProxier {
    MetricsProxier::from(HttpProxyTarget {
        connect_to: ConnectTo { url: "http://localhost:1/metrics".to_string(), timeout: default_timeout(), cache_duration: 0 },
        label_filters: vec![],
    })
}

#[test]
fn concurrent_identical_requests_fetch_once() {
    let mut cacher = DeadlineCacher::new(1_000_000_000);
    let key = cache_key("/metrics", Some(&b"Bearer x".to_vec()), None);
    let mut fetches = 0;
    let mut waiting = 0;
    for _ in 0..50 {
        match cacher.enter(&key) {
            Admission::Fetch => fetches += 1,
            Admission::Wait => waiting += 1,
            Admission::Hit(_) => panic!("nothing stored yet"),
        }
    }
    assert_eq!((fetches, waiting), (1, 49));
    assert!(cacher.complete(&key, &response(200, "body")));
    let mut hits = 0;
    for _ in 0..waiting {
        match cacher.enter(&key) {
            Admission::Hit(r) => {
                assert_eq!(r.contents, "body");
                hits += 1;
            }
            _ => panic!("the response is stored"),
        }
    }
    assert_eq!(hits, 49);
    cacher.expire(&key);
    assert!(matches!(cacher.enter(&key), Admission::Fetch));
}

#[test]
fn non_success_responses_are_not_stored() {
    let mut cacher = DeadlineCacher::new(1_000_000_000);
    let key = "k".to_string();
    assert!(matches!(cacher.enter(&key), Admission::Fetch));
    assert!(cacher.complete(&key, &response(502, "down")));
    assert!(matches!(cacher.enter(&key), Admission::Fetch));
    assert!(matches!(cacher.enter(&key), Admission::Wait));
    cacher.complete(&key, &response(204, ""));
    match cacher.enter(&key) {
        Admission::Hit(r) => assert_eq!(r.status, 204),
        _ => panic!("2xx is stored"),
    }
}

#[test]
fn zero_duration_disables_coalescing() {
    let mut cacher = DeadlineCacher::new(0);
    let key = "k".to_string();
    for _ in 0..3 {
        assert!(matches!(cacher.enter(&key), Admission::Fetch));
        assert!(!cacher.complete(&key, &response(200, "x")));
    }
    assert_eq!(cacher.staleness(), 0);
}

#[test]
fn distinct_authorization_gives_distinct_keys() {
    let a = cache_key("/metrics", Some(&b"Basic a".to_vec()), None);
    let b = cache_key("/metrics", Some(&b"Basic b".to_vec()), None);
    let none = cache_key("/metrics", None, None);
    assert_ne!(a, b);
    assert_ne!(a, none);
    assert_eq!(a, "/metrics\n+Basic a\n-");
    assert_eq!(cache_key("/m", None, Some(&b"p".to_vec())), "/m\n-\n+p");
}

#[test]
fn timeout_maps_to_gateway_timeout() {
    let mut p = proxier();
    let r = p.handle(Err(ScrapeError::Timeout("deadline".to_string())), 0);
    assert_eq!(r.status, 504);
    assert_eq!(r.headers, vec![("content-type".to_string(), b"text/plain".to_vec())]);
    assert_eq!(r.body, "The target is timing out.\n\ndeadline");
}

#[test]
fn error_statuses() {
    let mut p = proxier();
    assert_eq!(p.handle(Err(ScrapeError::FetchError("refused".to_string())), 0).status, 502);
    assert_eq!(p.handle(Err(ScrapeError::ParseError("bad".to_string())), 0).status, 500);
    let d = p.handle(Err(ScrapeError::DecodeError("utf8".to_string())), 0);
    assert_eq!(d.status, 500);
    assert_eq!(d.body, "Error decoding UTF-8 output.\n\nutf8");
    let n = p.handle(
        Err(ScrapeError::Non200(HttpError {
            status: 404,
            headers: vec![
                ("Content-Length".to_string(), b"3".to_vec()),
                ("x-a".to_string(), b"1".to_vec()),
            ],
            data: "nop".to_string(),
        })),
        0,
    );
    assert_eq!(n.status, 404);
    assert_eq!(n.headers, vec![("x-a".to_string(), b"1".to_vec())]);
    assert_eq!(n.body, "nop");
}

#[test]
fn header_projection() {
    let headers = vec![
        ("Accept".to_string(), b"text/plain".to_vec()),
        ("authorization".to_string(), b"x".to_vec()),
        ("Connection".to_string(), b"close".to_vec()),
        ("content-type".to_string(), b"text/plain".to_vec()),
        ("Transfer-Encoding".to_string(), b"chunked".to_vec()),
    ];
    assert_eq!(
        safely_clone_request_headers(&headers),
        vec![("Accept".to_string(), b"text/plain".to_vec())]
    );
    assert_eq!(
        safely_clone_response_headers(&headers),
        vec![
            ("Accept".to_string(), b"text/plain".to_vec()),
            ("authorization".to_string(), b"x".to_vec()),
            ("content-type".to_string(), b"text/plain".to_vec()),
        ]
    );
    assert_eq!(fallback_headers().len(), 1);
}

#[test]
fn success_range() {
    assert!(is_success(200));
    assert!(is_success(299));
    assert!(!is_success(300));
    assert!(!is_success(199));
}
