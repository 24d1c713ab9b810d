//! The configuration model: what each proxy listens on, which backend it
//! scrapes, and the label filters it applies.

use crate::pattern::AnchoredRegex;
use crate::text::{decimal, decimal_text, text_of};
use vstd::prelude::*;

verus! {

/// One action of a label filter.
#[derive(Debug, Clone, Copy, PartialEq, Eq, Structural)]
pub enum LabelFilterAction {
    /// Keep the sample.
    Keep,
    /// Drop the sample.
    Drop,
    /// Pass on the sample last passed on for the series until it is older
    /// than `resolution` nanoseconds.
    ReduceTimeResolution { resolution: u64 },
}

/// A rule applied to each sample: the values of `source_labels` joined by
/// `separator` are matched against `regex`, anchored at both ends; when it
/// matches, `actions` apply in order.
pub struct LabelFilter {
    pub source_labels: Vec<String>,
    pub separator: String,
    pub regex: AnchoredRegex,
    pub actions: Vec<LabelFilterAction>,
}

pub struct LabelFilterView {
    pub source_labels: Seq<Seq<char>>,
    pub separator: Seq<char>,
    pub pattern: Seq<char>,
    pub actions: Seq<LabelFilterAction>,
}

impl View for LabelFilter {
    type V = LabelFilterView;

    open spec fn view(&self) -> LabelFilterView {
        LabelFilterView {
            source_labels: self.source_labels.deep_view(),
            separator: self.separator@,
            pattern: self.regex@,
            actions: self.actions@,
        }
    }
}

/// The backend a proxy scrapes: its URL, the time allowed for a scrape, and
/// how long a whole successful response is served again (0: never), both in
/// nanoseconds.
pub struct ConnectTo {
    pub url: String,
    pub timeout: u64,
    pub cache_duration: u64,
}

/// What one path of a listener proxies to: the backend and the filters.
pub struct HttpProxyTarget {
    pub connect_to: ConnectTo,
    pub label_filters: Vec<LabelFilter>,
}

/// The source labels a filter reads when none are given: the metric name.
pub fn default_source_labels() -> (r: Vec<String>)
    ensures
        r.deep_view() == seq!["__name__"@],
{
    let r = vec![text_of("__name__")];
    assert(r.deep_view() =~= seq!["__name__"@]);
    r
}

/// The separator a filter joins label values with when none is given.
pub fn default_label_separator() -> (r: String)
    ensures
        r@ == ";"@,
{
    text_of(";")
}

impl LabelFilter {
    /// A filter whose pattern is `regex` anchored at both ends; the error is
    /// the regex compiler's message.
    pub fn new(
        source_labels: Vec<String>,
        separator: String,
        regex: &str,
        actions: Vec<LabelFilterAction>,
    ) -> (r: Result<LabelFilter, String>)
        ensures
            r is Ok <==> crate::pattern::regex_compiles(crate::pattern::anchored(regex@)),
            r is Ok ==> r->Ok_0@ == (LabelFilterView {
                source_labels: source_labels.deep_view(),
                separator: separator@,
                pattern: crate::pattern::anchored(regex@),
                actions: actions@,
            }),
    {
        match AnchoredRegex::new(regex) {
            Ok(compiled) => Ok(LabelFilter { source_labels, separator, regex: compiled, actions }),
            Err(message) => Err(message),
        }
    }
}

/// How long reading a request's headers may take, when not configured:
/// five seconds, in nanoseconds.
pub fn default_header_read_timeout() -> (r: u64)
    ensures
        r == 5_000_000_000,
{
    5_000_000_000
}

/// How long a backend scrape may take, when not configured: thirty seconds,
/// in nanoseconds.
pub fn default_timeout() -> (r: u64)
    ensures
        r == 30_000_000_000,
{
    30_000_000_000
}

/// How long handling a request may take, when not configured: the backend
/// timeout plus five seconds, in nanoseconds.
pub fn default_request_response_timeout() -> (r: u64)
    ensures
        r == 35_000_000_000,
{
    default_timeout() + 5_000_000_000
}

/// How a listener serves: plain HTTP, or HTTPS with a certificate chain and
/// a private key (DER bytes).
pub enum Protocol {
    Http,
    Https { certificate: Vec<Vec<u8>>, key: Vec<u8> },
}

pub enum ProtocolView {
    Http,
    Https { certificate: Seq<Seq<u8>>, key: Seq<u8> },
}

impl View for Protocol {
    type V = ProtocolView;

    open spec fn view(&self) -> ProtocolView {
        match self {
            Protocol::Http => ProtocolView::Http,
            Protocol::Https { certificate, key } => ProtocolView::Https {
                certificate: certificate.deep_view(),
                key: key@,
            },
        }
    }
}

fn same_bytes(a: &Vec<u8>, b: &Vec<u8>) -> (r: bool)
    ensures
        r == (a@ == b@),
{
    if a.len() != b.len() {
        return false;
    }
    for i in 0..a.len()
        invariant
            a.len() == b.len(),
            forall|j: int| 0 <= j < i ==> a@[j] == b@[j],
    {
        if a[i] != b[i] {
            return false;
        }
    }
    assert(a@ =~= b@);
    true
}

fn same_chain(a: &Vec<Vec<u8>>, b: &Vec<Vec<u8>>) -> (r: bool)
    ensures
        r == (a.deep_view() == b.deep_view()),
{
    if a.len() != b.len() {
        assert(a.deep_view().len() != b.deep_view().len());
        return false;
    }
    for i in 0..a.len()
        invariant
            a.len() == b.len(),
            forall|j: int| 0 <= j < i ==> a.deep_view()[j] == b.deep_view()[j],
    {
        assert(a.deep_view()[i as int] =~= a@[i as int]@);
        assert(b.deep_view()[i as int] =~= b@[i as int]@);
        if !same_bytes(&a[i], &b[i]) {
            return false;
        }
    }
    assert(a.deep_view() =~= b.deep_view());
    true
}

/// Where and how a proxy listens, and on which path.
pub struct ListenerSpec {
    pub protocol: Protocol,
    /// The socket address, as `host:port` text.
    pub sockaddr: String,
    pub header_read_timeout: u64,
    pub request_response_timeout: u64,
    pub handler: String,
}

/// One configured proxy: where it listens, what it scrapes, how it filters.
pub struct ProxyEntry {
    pub listen_on: ListenerSpec,
    pub connect_to: ConnectTo,
    pub label_filters: Vec<LabelFilter>,
}

/// The proxies of a configuration.
pub struct Config {
    pub proxies: Vec<ProxyEntry>,
}

/// Why a configuration cannot be used.
pub enum LoadError {
    ReadError(String),
    ParseError(String),
    ConflictingConfig(String),
    InvalidActionRegex(String),
}

/// Two proxies conflict when they listen on the same address and either
/// share a path or do not serve the same protocol with the same certificate
/// and key.
pub open spec fn listeners_conflict(a: ListenerSpec, b: ListenerSpec) -> bool {
    a.sockaddr@ == b.sockaddr@ && (a.handler@ == b.handler@ || a.protocol@ != b.protocol@)
}

/// No two proxies of `ps` conflict.
pub open spec fn conflict_free(ps: Seq<ProxyEntry>) -> bool {
    forall|i: int, j: int|
        0 <= i < j < ps.len() ==> !listeners_conflict(#[trigger] ps[i].listen_on, #[trigger] ps[j].listen_on)
}

/// The middle and end of the message for two conflicting proxies: same
/// path, different certificate, different key, or different protocol.
pub open spec fn conflict_wording(a: ListenerSpec, b: ListenerSpec) -> (Seq<char>, Seq<char>) {
    if a.handler@ == b.handler@ {
        (
            " in configuration proxies list contains the same host, port and handler as proxy "@,
            "; two proxies cannot listen on the same HTTP handler simultaneously"@,
        )
    } else if a.protocol@ is Https && b.protocol@ is Https && a.protocol@->Https_certificate
        != b.protocol@->Https_certificate {
        (
            " uses a different certificate from proxy "@,
            "; the same listening address must use the same certificate"@,
        )
    } else if a.protocol@ is Https && b.protocol@ is Https && a.protocol@->Https_key
        != b.protocol@->Https_key {
        (
            " uses a different private key from proxy "@,
            "; the same listening address must use the same private key"@,
        )
    } else {
        (
            " in configuration proxies list uses a protocol conflicting with proxy "@,
            " listening on the same host and port; the same listening address cannot serve both HTTP and HTTPS at the same time"@,
        )
    }
}

/// The message for proxies `prior` and `index` (counted from 0), which conflict.
pub open spec fn conflict_text(prior: int, a: ListenerSpec, index: int, b: ListenerSpec) -> Seq<char> {
    "proxy "@ + decimal((prior + 1) as nat) + conflict_wording(a, b).0 + decimal((index + 1) as nat)
        + conflict_wording(a, b).1
}

/// Proxies `i` and `j` are the first conflicting pair: by `j`, then by `i`.
pub open spec fn first_conflict(ps: Seq<ProxyEntry>, i: int, j: int) -> bool {
    &&& 0 <= i < j < ps.len()
    &&& listeners_conflict(ps[i].listen_on, ps[j].listen_on)
    &&& forall|a: int, b: int|
        0 <= a < b < j ==> !listeners_conflict(#[trigger] ps[a].listen_on, #[trigger] ps[b].listen_on)
    &&& forall|a: int| 0 <= a < i ==> !listeners_conflict(#[trigger] ps[a].listen_on, ps[j].listen_on)
}

fn conflict_message(prior: usize, index: usize, middle: &str, tail: &str) -> (r: String)
    requires
        prior < index < usize::MAX,
    ensures
        r@ == "proxy "@ + decimal((prior + 1) as nat) + middle@ + decimal((index + 1) as nat) + tail@,
{
    let mut out = text_of("proxy ");
    out.append(decimal_text(prior + 1).as_str());
    out.append(middle);
    out.append(decimal_text(index + 1).as_str());
    out.append(tail);
    out
}

/// The error for proxies `prior` and `index`, which conflict.
fn describe_conflict(prior: usize, a: &ListenerSpec, index: usize, b: &ListenerSpec) -> (r: String)
    requires
        prior < index < usize::MAX,
    ensures
        r@ == conflict_text(prior as int, *a, index as int, *b),
{
    if a.handler == b.handler {
        return conflict_message(
            prior,
            index,
            " in configuration proxies list contains the same host, port and handler as proxy ",
            "; two proxies cannot listen on the same HTTP handler simultaneously",
        );
    }
    match (&a.protocol, &b.protocol) {
        (
            Protocol::Https { certificate: c1, key: k1 },
            Protocol::Https { certificate: c2, key: k2 },
        ) => {
            if !same_chain(c1, c2) {
                return conflict_message(
                    prior,
                    index,
                    " uses a different certificate from proxy ",
                    "; the same listening address must use the same certificate",
                );
            }
            if !same_bytes(k1, k2) {
                return conflict_message(
                    prior,
                    index,
                    " uses a different private key from proxy ",
                    "; the same listening address must use the same private key",
                );
            }
        },
        _ => {},
    }
    conflict_message(
        prior,
        index,
        " in configuration proxies list uses a protocol conflicting with proxy ",
        " listening on the same host and port; the same listening address cannot serve both HTTP and HTTPS at the same time",
    )
}

fn same_protocol(a: &Protocol, b: &Protocol) -> (r: bool)
    ensures
        r == (a@ == b@),
{
    match (a, b) {
        (Protocol::Http, Protocol::Http) => true,
        (
            Protocol::Https { certificate: c1, key: k1 },
            Protocol::Https { certificate: c2, key: k2 },
        ) => same_chain(c1, c2) && same_bytes(k1, k2),
        _ => false,
    }
}

impl Config {
    /// Accepts the configuration when no two proxies conflict; otherwise
    /// names the first conflicting pair, in the order of the list.
    pub fn validate(&self) -> (r: Result<(), LoadError>)
        ensures
            r is Ok <==> conflict_free(self.proxies@),
            r matches Err(e) ==> e is ConflictingConfig,
            r matches Err(LoadError::ConflictingConfig(m)) ==> exists|i: int, j: int|
                first_conflict(self.proxies@, i, j) && m@ == conflict_text(
                    i,
                    self.proxies@[i].listen_on,
                    j,
                    self.proxies@[j].listen_on,
                ),
    {
        let ps = &self.proxies;
        for j in 0..ps.len()
            invariant
                ps@ == self.proxies@,
                forall|a: int, b: int|
                    0 <= a < b < j ==> !listeners_conflict(ps@[a].listen_on, ps@[b].listen_on),
        {
            for i in 0..j
                invariant
                    ps@ == self.proxies@,
                    j < ps.len(),
                    forall|a: int, b: int|
                        0 <= a < b < j ==> !listeners_conflict(ps@[a].listen_on, ps@[b].listen_on),
                    forall|a: int| 0 <= a < i ==> !listeners_conflict(ps@[a].listen_on, ps@[j as int].listen_on),
            {
                let a = &ps[i].listen_on;
                let b = &ps[j].listen_on;
                if a.sockaddr == b.sockaddr && (a.handler == b.handler || !same_protocol(&a.protocol, &b.protocol)) {
                    assert(listeners_conflict(ps@[i as int].listen_on, ps@[j as int].listen_on));
                    assert(!conflict_free(self.proxies@));
                    assert(first_conflict(self.proxies@, i as int, j as int));
                    return Err(LoadError::ConflictingConfig(describe_conflict(i, a, j, b)));
                }
            }
        }
        Ok(())
    }
}

/// One server: a listening address and the paths it serves, each with
/// what it proxies to.
pub struct HttpProxy {
    pub listen_on: ListenerSpec,
    pub handlers: Vec<(String, HttpProxyTarget)>,
}

/// The group of `g` whose first proxy listens on `addr`, if any.
pub open spec fn group_index(ps: Seq<ProxyEntry>, g: Seq<(int, Seq<int>)>, addr: Seq<char>) -> Option<int>
    decreases g.len(),
{
    if g.len() == 0 {
        None
    } else if ps[g[0].0].listen_on.sockaddr@ == addr {
        Some(0)
    } else {
        match group_index(ps, g.drop_first(), addr) {
            Some(k) => Some(k + 1),
            None => None,
        }
    }
}

/// Whether one of the proxies `members` serves `path`.
pub open spec fn serves_path(ps: Seq<ProxyEntry>, members: Seq<int>, path: Seq<char>) -> bool {
    exists|h: int| 0 <= h < members.len() && ps[members[h]].listen_on.handler@ == path
}

/// How the proxies of `ps` are grouped into servers: for each listening
/// address, in order of first appearance, the index of the first proxy on it
/// (whose listener settings the server takes) and the indices of the
/// proxies it serves, the first one for each path, in order.
pub open spec fn grouping(ps: Seq<ProxyEntry>) -> Seq<(int, Seq<int>)>
    decreases ps.len(),
{
    if ps.len() == 0 {
        Seq::empty()
    } else {
        let g = grouping(ps.drop_last());
        let i = ps.len() - 1;
        match group_index(ps, g, ps[i].listen_on.sockaddr@) {
            None => g.push((i, seq![i])),
            Some(k) => if serves_path(ps, g[k].1, ps[i].listen_on.handler@) {
                g
            } else {
                g.update(k, (g[k].0, g[k].1.push(i)))
            },
        }
    }
}

proof fn lemma_group_index_at(ps: Seq<ProxyEntry>, g: Seq<(int, Seq<int>)>, addr: Seq<char>, k: int)
    requires
        0 <= k <= g.len(),
        forall|j: int| 0 <= j < k ==> ps[#[trigger] g[j].0].listen_on.sockaddr@ != addr,
        k < g.len() ==> ps[g[k].0].listen_on.sockaddr@ == addr,
    ensures
        group_index(ps, g, addr) == if k < g.len() {
            Some(k)
        } else {
            None::<int>
        },
    decreases g.len(),
{
    if g.len() > 0 && k > 0 {
        assert(ps[g[0].0].listen_on.sockaddr@ != addr);
        assert forall|j: int| 0 <= j < k - 1 implies ps[#[trigger] g.drop_first()[j].0].listen_on.sockaddr@ != addr by {
            assert(g.drop_first()[j] == g[j + 1]);
        }
        lemma_group_index_at(ps, g.drop_first(), addr, k - 1);
    }
}

/// The proxies' indices in `g` are below `n`.
pub open spec fn indices_below(g: Seq<(int, Seq<int>)>, n: int) -> bool {
    forall|k: int|
        0 <= k < g.len() ==> 0 <= #[trigger] g[k].0 < n && forall|h: int|
            0 <= h < g[k].1.len() ==> 0 <= #[trigger] g[k].1[h] < n
}

proof fn lemma_group_index_range(ps: Seq<ProxyEntry>, g: Seq<(int, Seq<int>)>, addr: Seq<char>)
    ensures
        group_index(ps, g, addr) matches Some(k) ==> 0 <= k < g.len(),
    decreases g.len(),
{
    if g.len() > 0 {
        lemma_group_index_range(ps, g.drop_first(), addr);
    }
}

proof fn lemma_indices_below_mono(g: Seq<(int, Seq<int>)>, n: int, m: int)
    requires
        indices_below(g, n),
        n <= m,
    ensures
        indices_below(g, m),
{
    assert forall|k: int| 0 <= k < g.len() implies 0 <= #[trigger] g[k].0 < m && forall|h: int|
        0 <= h < g[k].1.len() ==> 0 <= #[trigger] g[k].1[h] < m by {
        assert(0 <= g[k].0 < n);
        assert forall|h: int| 0 <= h < g[k].1.len() implies 0 <= #[trigger] g[k].1[h] < m by {
            assert(0 <= g[k].1[h] < n);
        }
    }
}

proof fn lemma_grouping_indices(ps: Seq<ProxyEntry>)
    ensures
        indices_below(grouping(ps), ps.len() as int),
    decreases ps.len(),
{
    if ps.len() > 0 {
        let rest = ps.drop_last();
        lemma_grouping_indices(rest);
        let g = grouping(rest);
        let i = ps.len() - 1;
        lemma_indices_below_mono(g, i, ps.len() as int);
        lemma_group_index_range(ps, g, ps[i].listen_on.sockaddr@);
        match group_index(ps, g, ps[i].listen_on.sockaddr@) {
            None => {
                let g1 = g.push((i, seq![i]));
                assert forall|k: int| 0 <= k < g1.len() implies 0 <= #[trigger] g1[k].0 < ps.len() && forall|h: int|
                    0 <= h < g1[k].1.len() ==> 0 <= #[trigger] g1[k].1[h] < ps.len() by {
                    if k < g.len() {
                        assert(g1[k] == g[k]);
                    }
                }
            },
            Some(f) => {
                if !serves_path(ps, g[f].1, ps[i].listen_on.handler@) {
                    let g1 = g.update(f, (g[f].0, g[f].1.push(i)));
                    assert forall|k: int| 0 <= k < g1.len() implies 0 <= #[trigger] g1[k].0 < ps.len() && forall|h: int|
                        0 <= h < g1[k].1.len() ==> 0 <= #[trigger] g1[k].1[h] < ps.len() by {
                        if k != f {
                            assert(g1[k] == g[k]);
                        } else {
                            assert forall|h: int| 0 <= h < g1[k].1.len() implies 0 <= #[trigger] g1[k].1[h] < ps.len() by {
                                if h < g[f].1.len() {
                                    assert(g1[k].1[h] == g[f].1[h]);
                                }
                            }
                        }
                    }
                }
            },
        }
    }
}

proof fn lemma_prefix_lookups(ps: Seq<ProxyEntry>, n: int, g: Seq<(int, Seq<int>)>, addr: Seq<char>, path: Seq<char>, members: Seq<int>)
    requires
        0 <= n <= ps.len(),
        indices_below(g, n),
        forall|h: int| 0 <= h < members.len() ==> 0 <= #[trigger] members[h] < n,
    ensures
        group_index(ps.take(n), g, addr) == group_index(ps, g, addr),
        serves_path(ps.take(n), members, path) == serves_path(ps, members, path),
    decreases g.len(),
{
    if g.len() > 0 {
        assert(indices_below(g.drop_first(), n)) by {
            assert forall|k: int| 0 <= k < g.drop_first().len() implies 0 <= #[trigger] g.drop_first()[k].0 < n
                && forall|h: int| 0 <= h < g.drop_first()[k].1.len() ==> 0 <= #[trigger] g.drop_first()[k].1[h] < n by {
                assert(g.drop_first()[k] == g[k + 1]);
            }
        }
        lemma_prefix_lookups(ps, n, g.drop_first(), addr, path, members);
        assert(ps.take(n)[g[0].0] == ps[g[0].0]);
    }
    if serves_path(ps, members, path) {
        let h = choose|h: int| 0 <= h < members.len() && ps[members[h]].listen_on.handler@ == path;
        assert(ps.take(n)[members[h]] == ps[members[h]]);
    }
    if serves_path(ps.take(n), members, path) {
        let h = choose|h: int| 0 <= h < members.len() && ps.take(n)[members[h]].listen_on.handler@ == path;
        assert(ps.take(n)[members[h]] == ps[members[h]]);
    }
}

/// Whether `servers` is what the proxies `ps` grouped by `g` become.
pub open spec fn realizes(servers: Seq<HttpProxy>, ps: Seq<ProxyEntry>, g: Seq<(int, Seq<int>)>) -> bool {
    &&& servers.len() == g.len()
    &&& forall|k: int|
        0 <= k < g.len() ==> {
            let srv = #[trigger] servers[k];
            &&& srv.listen_on == ps[g[k].0].listen_on
            &&& srv.handlers@.len() == g[k].1.len()
            &&& forall|h: int|
                0 <= h < g[k].1.len() ==> {
                    let e = ps[g[k].1[h]];
                    &&& (#[trigger] srv.handlers@[h]).0@ == e.listen_on.handler@
                    &&& srv.handlers@[h].1 == HttpProxyTarget {
                        connect_to: e.connect_to,
                        label_filters: e.label_filters,
                    }
                }
        }
}

impl Config {
    /// Groups the proxies by listening address, so that each address is
    /// served by one server handling each of its paths.
    pub fn into_servers(self) -> (r: Vec<HttpProxy>)
        ensures
            realizes(r@, self.proxies@, grouping(self.proxies@)),
    {
        let ghost es = self.proxies@;
        let mut rest = self.proxies;
        let mut servers: Vec<HttpProxy> = Vec::new();
        let mut i: usize = 0;
        let total = rest.len();
        while rest.len() > 0
            invariant
                es.len() == total,
                i <= es.len(),
                rest@ == es.skip(i as int),
                realizes(servers@, es, grouping(es.take(i as int))),
                indices_below(grouping(es.take(i as int)), i as int),
            decreases rest.len(),
        {
            let ghost g = grouping(es.take(i as int));
            proof {
                assert(es.take(i + 1).drop_last() =~= es.take(i as int));
                assert(es.skip(i as int)[0] == es[i as int]);
                lemma_grouping_indices(es.take(i + 1));
            }
            let e = rest.remove(0);
            assert(rest@ =~= es.skip(i + 1));
            let ghost addr = e.listen_on.sockaddr@;
            let ghost path = e.listen_on.handler@;
            let mut found: Option<usize> = None;
            for k in 0..servers.len()
                invariant
                    servers@.len() == g.len(),
                    realizes(servers@, es, g),
                    indices_below(g, i as int),
                    i < es.len(),
                    addr == e.listen_on.sockaddr@,
                    found matches Some(f) ==> f < k && es[g[f as int].0].listen_on.sockaddr@ == addr && forall|j: int| 0 <= j < f ==> es[#[trigger] g[j].0].listen_on.sockaddr@ != addr,
                    found is None ==> forall|j: int| 0 <= j < k ==> es[#[trigger] g[j].0].listen_on.sockaddr@ != addr,
            {
                if found.is_none() && servers[k].listen_on.sockaddr == e.listen_on.sockaddr {
                    found = Some(k);
                }
            }
            proof {
                lemma_indices_below_mono(g, i as int, i + 1);
                lemma_prefix_lookups(es, i + 1, g, addr, path, Seq::empty());
                match found {
                    Some(f) => lemma_group_index_at(es, g, addr, f as int),
                    None => lemma_group_index_at(es, g, addr, g.len() as int),
                }
            }
            let ghost ps1 = es.take(i + 1);
            assert(ps1[i as int] == e);
            match found {
                None => {
                    let handler = e.listen_on.handler.clone();
                    let target = HttpProxyTarget { connect_to: e.connect_to, label_filters: e.label_filters };
                    let mut handlers: Vec<(String, HttpProxyTarget)> = Vec::new();
                    handlers.push((handler, target));
                    let ghost before = servers@;
                    servers.push(HttpProxy { listen_on: e.listen_on, handlers });
                    proof {
                        assert(group_index(ps1, g, addr) is None);
                        let g1 = grouping(ps1);
                        assert(g1 == g.push((i as int, seq![i as int])));
                        assert(realizes(servers@, es, g1)) by {
                            assert forall|k: int| 0 <= k < g1.len() implies {
                                let srv = #[trigger] servers@[k];
                                &&& srv.listen_on == es[g1[k].0].listen_on
                                &&& srv.handlers@.len() == g1[k].1.len()
                                &&& forall|h: int|
                                    0 <= h < g1[k].1.len() ==> {
                                        let e2 = es[g1[k].1[h]];
                                        &&& (#[trigger] srv.handlers@[h]).0@ == e2.listen_on.handler@
                                        &&& srv.handlers@[h].1 == HttpProxyTarget {
                                            connect_to: e2.connect_to,
                                            label_filters: e2.label_filters,
                                        }
                                    }
                            } by {
                                if k < g.len() {
                                    assert(servers@[k] == before[k]);
                                    assert(g1[k] == g[k]);
                                }
                            }
                        }
                    }
                },
                Some(f) => {
                    let mut serves = false;
                    let count = servers[f].handlers.len();
                    for h in 0..count
                        invariant
                            f < servers@.len(),
                            count == servers@[f as int].handlers@.len(),
                            servers@.len() == g.len(),
                            realizes(servers@, es, g),
                            indices_below(g, i as int),
                            i < es.len(),
                            path == e.listen_on.handler@,
                            serves == exists|x: int| 0 <= x < h && es[g[f as int].1[x]].listen_on.handler@ == path,
                    {
                        if servers[f].handlers[h].0 == e.listen_on.handler {
                            serves = true;
                        }
                    }
                    proof {
                        lemma_prefix_lookups(es, i + 1, g, addr, path, g[f as int].1);
                        assert(serves == serves_path(es, g[f as int].1, path));
                    }
                    if !serves {
                        let handler = e.listen_on.handler.clone();
                        let target = HttpProxyTarget { connect_to: e.connect_to, label_filters: e.label_filters };
                        let ghost before = servers@;
                        let mut srv = servers.remove(f);
                        srv.handlers.push((handler, target));
                        servers.insert(f, srv);
                        proof {
                            let g1 = grouping(ps1);
                            assert(g1 == g.update(f as int, (g[f as int].0, g[f as int].1.push(i as int))));
                            assert(servers@ =~= before.update(f as int, srv));
                            assert(realizes(servers@, es, g1)) by {
                                assert forall|k: int| 0 <= k < g1.len() implies {
                                    let s2 = #[trigger] servers@[k];
                                    &&& s2.listen_on == es[g1[k].0].listen_on
                                    &&& s2.handlers@.len() == g1[k].1.len()
                                    &&& forall|h: int|
                                        0 <= h < g1[k].1.len() ==> {
                                            let e2 = es[g1[k].1[h]];
                                            &&& (#[trigger] s2.handlers@[h]).0@ == e2.listen_on.handler@
                                            &&& s2.handlers@[h].1 == HttpProxyTarget {
                                                connect_to: e2.connect_to,
                                                label_filters: e2.label_filters,
                                            }
                                        }
                                } by {
                                    if k != f {
                                        assert(servers@[k] == before[k]);
                                        assert(g1[k] == g[k]);
                                    } else {
                                        assert forall|h: int| 0 <= h < g1[k].1.len() implies {
                                            let e2 = es[g1[k].1[h]];
                                            &&& (#[trigger] servers@[k].handlers@[h]).0@ == e2.listen_on.handler@
                                            &&& servers@[k].handlers@[h].1 == HttpProxyTarget {
                                                connect_to: e2.connect_to,
                                                label_filters: e2.label_filters,
                                            }
                                        } by {
                                            if h < g[k].1.len() {
                                                assert(servers@[k].handlers@[h] == before[k].handlers@[h]);
                                                assert(g1[k].1[h] == g[k].1[h]);
                                            }
                                        }
                                    }
                                }
                            }
                        }
                    } else {
                        proof {
                            assert(grouping(ps1) == g);
                        }
                    }
                },
            }
            i = i + 1;
        }
        assert(es.take(es.len() as int) =~= es);
        servers
    }
}

/// Why a URL cannot be used.
pub enum InvalidURLError {
    AddrParseError(String),
    AddrResolveError(String),
    InvalidAddressError(String),
    UnsupportedScheme(String),
    AuthenticationUnsupported,
    FragmentUnsupported,
}

/// Why a listen specification cannot be used.
pub enum ListenOnParseError {
    InvalidURL(InvalidURLError),
    PortMissing,
    PortOutOfBoundsError(u16),
    QueryStringUnsupported,
    CertificateFileRequired,
    KeyFileRequired,
    CertificateFileReadError(String),
    KeyFileReadError(String),
    SSLOptionsNotAllowed,
}

/// `prefix` followed by `s`.
fn prefixed(prefix: &str, s: &str) -> (r: String)
    ensures
        r@ == prefix@ + s@,
{
    let mut out = text_of(prefix);
    out.append(s);
    out
}

impl InvalidURLError {
    /// The message describing the error.
    pub open spec fn text(&self) -> Seq<char> {
        match self {
            InvalidURLError::AddrParseError(e) => "cannot parse address: "@ + e@,
            InvalidURLError::AddrResolveError(e) => "cannot resolve address: "@ + e@,
            InvalidURLError::InvalidAddressError(e) => "invalid address: "@ + e@,
            InvalidURLError::UnsupportedScheme(s) => "the "@ + s@
                + " protocol is not supported by this program"@,
            InvalidURLError::AuthenticationUnsupported => "authentication is currently not supported"@,
            InvalidURLError::FragmentUnsupported => "fragments may not be specified"@,
        }
    }

    /// The message describing the error.
    pub fn message(&self) -> (r: String)
        ensures
            r@ == self.text(),
    {
        match self {
            InvalidURLError::AddrParseError(e) => prefixed("cannot parse address: ", e.as_str()),
            InvalidURLError::AddrResolveError(e) => prefixed("cannot resolve address: ", e.as_str()),
            InvalidURLError::InvalidAddressError(e) => prefixed("invalid address: ", e.as_str()),
            InvalidURLError::UnsupportedScheme(s) => {
                let mut out = prefixed("the ", s.as_str());
                out.append(" protocol is not supported by this program");
                out
            },
            InvalidURLError::AuthenticationUnsupported => text_of(
                "authentication is currently not supported",
            ),
            InvalidURLError::FragmentUnsupported => text_of("fragments may not be specified"),
        }
    }
}

impl ListenOnParseError {
    /// The message describing the error.
    pub open spec fn text(&self) -> Seq<char> {
        match self {
            ListenOnParseError::InvalidURL(e) => "listen URL not valid: "@ + e.text(),
            ListenOnParseError::PortMissing => "port missing from listen URL"@,
            ListenOnParseError::PortOutOfBoundsError(p) => "port in listen URL out of bounds: "@
                + decimal(*p as nat),
            ListenOnParseError::QueryStringUnsupported => "query strings may not be specified in listen URL"@,
            ListenOnParseError::CertificateFileRequired => "certificate_file is required for HTTPS"@,
            ListenOnParseError::KeyFileRequired => "key_file is required for HTTPS"@,
            ListenOnParseError::CertificateFileReadError(e) => "could not read certificate file: "@
                + e@,
            ListenOnParseError::KeyFileReadError(e) => "could not read key file: "@ + e@,
            ListenOnParseError::SSLOptionsNotAllowed => "options certificate_file and key_file are not allowed when serving plain HTTP"@,
        }
    }

    /// The message describing the error.
    pub fn message(&self) -> (r: String)
        ensures
            r@ == self.text(),
    {
        match self {
            ListenOnParseError::InvalidURL(e) => prefixed(
                "listen URL not valid: ",
                e.message().as_str(),
            ),
            ListenOnParseError::PortMissing => text_of("port missing from listen URL"),
            ListenOnParseError::PortOutOfBoundsError(p) => prefixed(
                "port in listen URL out of bounds: ",
                decimal_text(*p as usize).as_str(),
            ),
            ListenOnParseError::QueryStringUnsupported => text_of(
                "query strings may not be specified in listen URL",
            ),
            ListenOnParseError::CertificateFileRequired => text_of(
                "certificate_file is required for HTTPS",
            ),
            ListenOnParseError::KeyFileRequired => text_of("key_file is required for HTTPS"),
            ListenOnParseError::CertificateFileReadError(e) => prefixed(
                "could not read certificate file: ",
                e.as_str(),
            ),
            ListenOnParseError::KeyFileReadError(e) => prefixed(
                "could not read key file: ",
                e.as_str(),
            ),
            ListenOnParseError::SSLOptionsNotAllowed => text_of(
                "options certificate_file and key_file are not allowed when serving plain HTTP",
            ),
        }
    }
}

impl LoadError {
    /// The message describing the error.
    pub open spec fn text(&self) -> Seq<char> {
        match self {
            LoadError::ReadError(e) => "cannot read configuration: "@ + e@,
            LoadError::ParseError(e) => "cannot parse configuration: "@ + e@,
            LoadError::ConflictingConfig(e) => "conflicting configuration: "@ + e@,
            LoadError::InvalidActionRegex(e) => "invalid action regular expression: "@ + e@,
        }
    }

    /// The message describing the error.
    pub fn message(&self) -> (r: String)
        ensures
            r@ == self.text(),
    {
        match self {
            LoadError::ReadError(e) => prefixed("cannot read configuration: ", e.as_str()),
            LoadError::ParseError(e) => prefixed("cannot parse configuration: ", e.as_str()),
            LoadError::ConflictingConfig(e) => prefixed("conflicting configuration: ", e.as_str()),
            LoadError::InvalidActionRegex(e) => prefixed(
                "invalid action regular expression: ",
                e.as_str(),
            ),
        }
    }
}

/// What a listen URL says, as far as deciding whether it can be listened on.
pub struct ListenUrl {
    pub scheme: String,
    pub port: Option<u16>,
    pub username: String,
    pub has_password: bool,
    pub has_query: bool,
    pub has_fragment: bool,
}

/// The lowest port a proxy may listen on.
pub const MIN_LISTEN_PORT: u16 = 1024;

impl ListenUrl {
    /// The port to listen on. The port must be given and be at least 1024;
    /// the URL may carry no credentials, no query and no fragment. The first
    /// of these that fails, in that order, is the error.
    pub fn check(&self) -> (r: Result<u16, ListenOnParseError>)
        ensures
            match self.port {
                None => r matches Err(ListenOnParseError::PortMissing),
                Some(p) => if p < 1024 {
                    (r matches Err(ListenOnParseError::PortOutOfBoundsError(q)) && q == p)
                } else if self.username@.len() > 0 || self.has_password {
                    r matches Err(ListenOnParseError::InvalidURL(InvalidURLError::AuthenticationUnsupported))
                } else if self.has_query {
                    r matches Err(ListenOnParseError::QueryStringUnsupported)
                } else if self.has_fragment {
                    r matches Err(ListenOnParseError::InvalidURL(InvalidURLError::FragmentUnsupported))
                } else {
                    r == Ok::<u16, ListenOnParseError>(p)
                },
            },
    {
        let p = match self.port {
            None => {
                return Err(ListenOnParseError::PortMissing);
            },
            Some(p) => p,
        };
        if p < MIN_LISTEN_PORT {
            return Err(ListenOnParseError::PortOutOfBoundsError(p));
        }
        if self.username.as_str().unicode_len() > 0 || self.has_password {
            proof {
                if self.username@.len() == 0 {
                    assert(self.username@ =~= Seq::<char>::empty());
                }
            }
            return Err(ListenOnParseError::InvalidURL(InvalidURLError::AuthenticationUnsupported));
        }
        if self.has_query {
            return Err(ListenOnParseError::QueryStringUnsupported);
        }
        if self.has_fragment {
            return Err(ListenOnParseError::InvalidURL(InvalidURLError::FragmentUnsupported));
        }
        Ok(p)
    }
}

/// Whether a listener with URL scheme `scheme` serves HTTPS, given whether
/// a certificate file and a key file are configured. An empty scheme means
/// `http`. Plain HTTP takes neither file; HTTPS needs both; any other
/// scheme is refused.
pub fn protocol_is_https(scheme: &String, has_certificate: bool, has_key: bool) -> (r: Result<
    bool,
    ListenOnParseError,
>)
    ensures
        (scheme@ == "http"@ || scheme@.len() == 0) ==> if has_certificate || has_key {
            r matches Err(ListenOnParseError::SSLOptionsNotAllowed)
        } else {
            r == Ok::<bool, ListenOnParseError>(false)
        },
        scheme@ == "https"@ ==> if !has_certificate {
            r matches Err(ListenOnParseError::CertificateFileRequired)
        } else if !has_key {
            r matches Err(ListenOnParseError::KeyFileRequired)
        } else {
            r == Ok::<bool, ListenOnParseError>(true)
        },
        !(scheme@ == "http"@ || scheme@.len() == 0 || scheme@ == "https"@) ==> (r matches Err(
            ListenOnParseError::InvalidURL(InvalidURLError::UnsupportedScheme(s)),
        ) && s@ == scheme@),
{
    let http = text_of("http");
    let https = text_of("https");
    proof {
        reveal_strlit("http");
        reveal_strlit("https");
        assert("https"@.len() == 5 && "http"@.len() == 4);
    }
    if *scheme == http || scheme.as_str().unicode_len() == 0 {
        if has_certificate || has_key {
            Err(ListenOnParseError::SSLOptionsNotAllowed)
        } else {
            Ok(false)
        }
    } else if *scheme == https {
        if !has_certificate {
            Err(ListenOnParseError::CertificateFileRequired)
        } else if !has_key {
            Err(ListenOnParseError::KeyFileRequired)
        } else {
            Ok(true)
        }
    } else {
        Err(ListenOnParseError::InvalidURL(InvalidURLError::UnsupportedScheme(scheme.clone())))
    }
}

/// The private key of a key file, which must hold exactly one key among its
/// PKCS#8, RSA and EC keys; otherwise the number of keys it holds.
pub fn single_private_key(
    pkcs8: Vec<Vec<u8>>,
    rsa: Vec<Vec<u8>>,
    ec: Vec<Vec<u8>>,
) -> (r: Result<Vec<u8>, usize>)
    ensures
        ({
            let all = pkcs8@ + rsa@ + ec@;
            if all.len() == 1 {
                r == Ok::<Vec<u8>, usize>(all[0])
            } else {
                r == Err::<Vec<u8>, usize>(all.len() as usize)
            }
        }),
{
    let ghost all = pkcs8@ + rsa@ + ec@;
    let mut keys = pkcs8;
    let mut rsa = rsa;
    let mut ec = ec;
    keys.append(&mut rsa);
    keys.append(&mut ec);
    assert(keys@ =~= all);
    if keys.len() == 1 {
        let key = keys.pop().unwrap();
        Ok(key)
    } else {
        Err(keys.len())
    }
}

/// Accepts a backend URL: `http` or `https`, without credentials and
/// without fragment; the first failing check, in that order, is the error.
pub fn check_connect_url(scheme: &String, username: &String, has_password: bool, has_fragment: bool) -> (r:
    Result<(), InvalidURLError>)
    ensures
        if username@.len() > 0 || has_password {
            r matches Err(InvalidURLError::AuthenticationUnsupported)
        } else if has_fragment {
            r matches Err(InvalidURLError::FragmentUnsupported)
        } else if scheme@ == "http"@ || scheme@ == "https"@ {
            r is Ok
        } else {
            (r matches Err(InvalidURLError::UnsupportedScheme(s)) && s@ == scheme@)
        },
{
    if username.as_str().unicode_len() > 0 || has_password {
        return Err(InvalidURLError::AuthenticationUnsupported);
    }
    if has_fragment {
        return Err(InvalidURLError::FragmentUnsupported);
    }
    if *scheme == text_of("http") || *scheme == text_of("https") {
        Ok(())
    } else {
        Err(InvalidURLError::UnsupportedScheme(scheme.clone()))
    }
}

} // verus!
