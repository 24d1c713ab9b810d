//! The metrics proxier: what is relayed to the backend, and how the
//! backend's answer becomes the response to the client.

use crate::client::{Header, ScrapeError, ScrapeResult};
use crate::config::HttpProxyTarget;
use crate::exposition::Scrape;
use crate::filter::{
    filter_pass, filters_view, lemma_no_drop_removes_nothing, no_drop, pass_scrape, run_filters,
};
use crate::sample_cache::fingerprint;
use crate::render::{render, render_scrape_data};
use crate::sample_cache::{CacheView, SampleCacheStore};
use crate::text::text_of;
use vstd::prelude::*;

verus! {

/// The lowercase form of a header name.
pub uninterp spec fn lowercase_of(s: Seq<char>) -> Seq<char>;

/// Relies on `str::to_lowercase`: the result depends on the characters alone.
#[verifier::external_body]
fn to_lowercase(s: &str) -> (r: String)
    ensures
        r@ == lowercase_of(s@),
{
    s.to_lowercase()
}

/// Headers that apply to a single transport hop and are never relayed.
pub open spec fn is_hop_by_hop(lower: Seq<char>) -> bool {
    lower == "keep-alive"@ || lower == "transfer-encoding"@ || lower == "te"@ || lower
        == "connection"@ || lower == "trailer"@ || lower == "upgrade"@ || lower
        == "proxy-authorization"@ || lower == "proxy-authenticate"@
}

/// Headers of the backend's response that no longer hold once the body is
/// rendered anew.
pub open spec fn is_stripped_from_response(lower: Seq<char>) -> bool {
    lower == "content-length"@
}

/// Headers of the client's request that are relayed to the backend.
pub open spec fn is_relayed_client_header(lower: Seq<char>) -> bool {
    lower == "accept"@
}

/// Whether a backend response header is passed on to the client.
pub open spec fn keeps_response_header(h: (Seq<char>, Seq<u8>)) -> bool {
    !is_hop_by_hop(lowercase_of(h.0)) && !is_stripped_from_response(lowercase_of(h.0))
}

/// Whether a client request header is passed on to the backend.
pub open spec fn keeps_request_header(h: (Seq<char>, Seq<u8>)) -> bool {
    is_relayed_client_header(lowercase_of(h.0))
}

fn equals_literal(s: &String, lit: &str) -> (r: bool)
    ensures
        r == (s@ == lit@),
{
    *s == text_of(lit)
}

/// Whether a lowercase header name is hop-by-hop.
pub fn hop_by_hop(lower: &String) -> (r: bool)
    ensures
        r == is_hop_by_hop(lower@),
{
    equals_literal(lower, "keep-alive") || equals_literal(lower, "transfer-encoding")
        || equals_literal(lower, "te") || equals_literal(lower, "connection")
        || equals_literal(lower, "trailer") || equals_literal(lower, "upgrade")
        || equals_literal(lower, "proxy-authorization") || equals_literal(
        lower,
        "proxy-authenticate",
    )
}

fn copy_header(h: &Header) -> (r: Header)
    ensures
        r.deep_view() == h.deep_view(),
{
    (h.0.clone(), h.1.clone())
}

/// The backend's response headers without hop-by-hop headers and without
/// `content-length`, in their order.
pub fn safely_clone_response_headers(orgheaders: &Vec<Header>) -> (r: Vec<Header>)
    ensures
        r.deep_view() == orgheaders.deep_view().filter(|h: (Seq<char>, Seq<u8>)| keeps_response_header(h)),
{
    let ghost hs = orgheaders.deep_view();
    let mut headers: Vec<Header> = Vec::new();
    for i in 0..orgheaders.len()
        invariant
            hs == orgheaders.deep_view(),
            headers.deep_view() == hs.take(i as int).filter(
                |h: (Seq<char>, Seq<u8>)| keeps_response_header(h),
            ),
    {
        proof {
            reveal(Seq::filter);
            assert(hs.take(i + 1).drop_last() =~= hs.take(i as int));
        }
        let lower = to_lowercase(orgheaders[i].0.as_str());
        if !hop_by_hop(&lower) && !equals_literal(&lower, "content-length") {
            let h = copy_header(&orgheaders[i]);
            let ghost prev = headers.deep_view();
            headers.push(h);
            assert(headers.deep_view() =~= prev.push(h.deep_view()));
        }
    }
    assert(hs.take(orgheaders.len() as int) =~= hs);
    headers
}

/// The client's request headers that are relayed to the backend, in their order.
pub fn safely_clone_request_headers(orgheaders: &Vec<Header>) -> (r: Vec<Header>)
    ensures
        r.deep_view() == orgheaders.deep_view().filter(|h: (Seq<char>, Seq<u8>)| keeps_request_header(h)),
{
    let ghost hs = orgheaders.deep_view();
    let mut headers: Vec<Header> = Vec::new();
    for i in 0..orgheaders.len()
        invariant
            hs == orgheaders.deep_view(),
            headers.deep_view() == hs.take(i as int).filter(
                |h: (Seq<char>, Seq<u8>)| keeps_request_header(h),
            ),
    {
        proof {
            reveal(Seq::filter);
            assert(hs.take(i + 1).drop_last() =~= hs.take(i as int));
        }
        let lower = to_lowercase(orgheaders[i].0.as_str());
        if equals_literal(&lower, "accept") {
            let h = copy_header(&orgheaders[i]);
            let ghost prev = headers.deep_view();
            headers.push(h);
            assert(headers.deep_view() =~= prev.push(h.deep_view()));
        }
    }
    assert(hs.take(orgheaders.len() as int) =~= hs);
    headers
}

/// The headers of a response the proxy writes itself: `content-type: text/plain`.
pub open spec fn fallback_headers_view() -> Seq<(Seq<char>, Seq<u8>)> {
    seq![("content-type"@, seq![116u8, 101, 120, 116, 47, 112, 108, 97, 105, 110])]
}

/// `content-type: text/plain`.
pub fn fallback_headers() -> (r: Vec<Header>)
    ensures
        r.deep_view() == fallback_headers_view(),
{
    let value: Vec<u8> = vec![116u8, 101, 120, 116, 47, 112, 108, 97, 105, 110];
    assert(value.deep_view() =~= seq![116u8, 101, 120, 116, 47, 112, 108, 97, 105, 110]);
    let r = vec![(text_of("content-type"), value)];
    assert(r.deep_view() =~= fallback_headers_view());
    r
}

/// Receives what the backend answered and turns it into the response,
/// filtering the samples with the target's filters and a sample cache of
/// its own.
pub struct MetricsProxier {
    pub target: HttpProxyTarget,
    pub cache: SampleCacheStore,
}

/// A response: status, headers and body.
pub struct ProxyResponse {
    pub status: u16,
    pub headers: Vec<Header>,
    pub body: String,
}

/// `prefix` followed by `message`.
fn diagnostic(prefix: &str, message: &String) -> (r: String)
    ensures
        r@ == prefix@ + message@,
{
    let mut out = text_of(prefix);
    out.append(message.as_str());
    out
}

impl MetricsProxier {
    /// The cache's invariant holds.
    pub open spec fn wf(&self) -> bool {
        self.cache.wf()
    }

    /// What the sample cache holds.
    pub open spec fn cache_view(&self) -> CacheView {
        self.cache@
    }

    /// A proxier for `target`, with an empty sample cache.
    pub fn from(target: HttpProxyTarget) -> (r: MetricsProxier)
        ensures
            r.wf(),
            r.target == target,
            r.cache_view() == Map::<Seq<(Seq<char>, Seq<char>)>, (crate::exposition::SampleView, u64)>::empty(),
    {
        MetricsProxier { target, cache: SampleCacheStore::new() }
    }

    /// One pass of the target's filters over `series` at instant `now`
    /// (nanoseconds on a monotonic clock).
    pub fn apply_filters(&mut self, series: Scrape, now: u64) -> (r: Scrape)
        requires
            old(self).wf(),
        ensures
            final(self).wf(),
            final(self).target == old(self).target,
            ({
                let p = filter_pass(
                    filters_view(old(self).target.label_filters@),
                    series@.samples,
                    series@.docs,
                    old(self).cache_view(),
                    now,
                );
                r@ == pass_scrape(p) && final(self).cache_view() == p.cache
            }),
    {
        run_filters(&self.target.label_filters, &mut self.cache, &series, now)
    }

    /// With filters that never drop, such as time-resolution reduction
    /// alone, a pass of this proxier hands on one sample for each sample it
    /// is given: the sample itself, or the stored one of the same series.
    pub proof fn lemma_filters_without_drop_keep_every_sample(&self, series: Scrape, now: u64)
        requires
            self.wf(),
            no_drop(filters_view(self.target.label_filters@)),
        ensures
            ({
                let p = filter_pass(
                    filters_view(self.target.label_filters@),
                    series@.samples,
                    series@.docs,
                    self.cache_view(),
                    now,
                );
                &&& p.samples.len() == series@.samples.len()
                &&& forall|i: int|
                    0 <= i < p.samples.len() ==> p.samples[i] == series@.samples[i] || fingerprint(
                        #[trigger] p.samples[i],
                    ) == fingerprint(series@.samples[i])
            }),
    {
        self.cache.lemma_consistent();
        lemma_no_drop_removes_nothing(
            filters_view(self.target.label_filters@),
            series@.samples,
            series@.docs,
            self.cache_view(),
            now,
        );
    }

    /// The response for what the backend answered: the backend's own status,
    /// sanitized headers and body for a status outside 2xx; 500 when the body
    /// could not be parsed or decoded; 502 when the backend could not be
    /// reached; 504 when it timed out; otherwise 200 with the sanitized
    /// headers and the filtered samples rendered.
    pub fn handle(&mut self, outcome: Result<ScrapeResult, ScrapeError>, now: u64) -> (r:
        ProxyResponse)
        requires
            old(self).wf(),
        ensures
            final(self).wf(),
            final(self).target == old(self).target,
            match outcome {
                Err(ScrapeError::Non200(e)) => {
                    &&& r.status == e.status
                    &&& r.headers.deep_view() == e.headers.deep_view().filter(
                        |h: (Seq<char>, Seq<u8>)| keeps_response_header(h),
                    )
                    &&& r.body@ == e.data@
                    &&& final(self).cache_view() == old(self).cache_view()
                },
                Err(ScrapeError::ParseError(m)) => {
                    &&& r.status == 500
                    &&& r.headers.deep_view() == fallback_headers_view()
                    &&& r.body@ == "Error parsing output.\n\n"@ + m@
                    &&& final(self).cache_view() == old(self).cache_view()
                },
                Err(ScrapeError::DecodeError(m)) => {
                    &&& r.status == 500
                    &&& r.headers.deep_view() == fallback_headers_view()
                    &&& r.body@ == "Error decoding UTF-8 output.\n\n"@ + m@
                    &&& final(self).cache_view() == old(self).cache_view()
                },
                Err(ScrapeError::FetchError(m)) => {
                    &&& r.status == 502
                    &&& r.headers.deep_view() == fallback_headers_view()
                    &&& r.body@ == "The target is down.\n\n"@ + m@
                    &&& final(self).cache_view() == old(self).cache_view()
                },
                Err(ScrapeError::Timeout(m)) => {
                    &&& r.status == 504
                    &&& r.headers.deep_view() == fallback_headers_view()
                    &&& r.body@ == "The target is timing out.\n\n"@ + m@
                    &&& final(self).cache_view() == old(self).cache_view()
                },
                Ok(parsed) => {
                    let p = filter_pass(
                        filters_view(old(self).target.label_filters@),
                        parsed.series@.samples,
                        parsed.series@.docs,
                        old(self).cache_view(),
                        now,
                    );
                    &&& r.status == 200
                    &&& r.headers.deep_view() == parsed.headers.deep_view().filter(
                        |h: (Seq<char>, Seq<u8>)| keeps_response_header(h),
                    )
                    &&& r.body@ == render(pass_scrape(p))
                    &&& final(self).cache_view() == p.cache
                },
            },
    {
        match outcome {
            Err(ScrapeError::Non200(e)) => ProxyResponse {
                status: e.status,
                headers: safely_clone_response_headers(&e.headers),
                body: e.data,
            },
            Err(ScrapeError::ParseError(m)) => ProxyResponse {
                status: 500,
                headers: fallback_headers(),
                body: diagnostic("Error parsing output.\n\n", &m),
            },
            Err(ScrapeError::DecodeError(m)) => ProxyResponse {
                status: 500,
                headers: fallback_headers(),
                body: diagnostic("Error decoding UTF-8 output.\n\n", &m),
            },
            Err(ScrapeError::FetchError(m)) => ProxyResponse {
                status: 502,
                headers: fallback_headers(),
                body: diagnostic("The target is down.\n\n", &m),
            },
            Err(ScrapeError::Timeout(m)) => ProxyResponse {
                status: 504,
                headers: fallback_headers(),
                body: diagnostic("The target is timing out.\n\n", &m),
            },
            Ok(parsed) => {
                let headers = safely_clone_response_headers(&parsed.headers);
                let filtered = self.apply_filters(parsed.series, now);
                ProxyResponse { status: 200, headers, body: render_scrape_data(&filtered) }
            },
        }
    }
}

} // verus!
