//! The response coalescer ("deadline cacher"): at most one backend fetch in
//! flight per request key, and a whole successful response served again to
//! callers with the same key until its entry is removed.
//!
//! The coalescer here is the state and its decisions; the caller runs the
//! fetch, waits where told to, and removes each entry once its lifetime has
//! elapsed.

use crate::client::{is_success, Header};
use crate::text::{push_char, text_of};
use crate::assoc::{
    assoc_map, keys_distinct, lemma_assoc_has, lemma_assoc_lacks, lemma_assoc_push, lemma_assoc_remove,
    lemma_assoc_update,
};
use vstd::prelude::*;

verus! {

/// A whole response as the coalescer keeps it.
pub struct CachedResponse {
    pub status: u16,
    pub headers: Vec<Header>,
    pub contents: String,
}

pub struct CachedResponseView {
    pub status: u16,
    pub headers: Seq<(Seq<char>, Seq<u8>)>,
    pub contents: Seq<char>,
}

impl View for CachedResponse {
    type V = CachedResponseView;

    open spec fn view(&self) -> CachedResponseView {
        CachedResponseView {
            status: self.status,
            headers: self.headers.deep_view(),
            contents: self.contents@,
        }
    }
}

impl CachedResponse {
    pub fn copy(&self) -> (r: CachedResponse)
        ensures
            r@ == self@,
    {
        let mut headers: Vec<Header> = Vec::new();
        for i in 0..self.headers.len()
            invariant
                headers.deep_view() == self.headers.deep_view().take(i as int),
        {
            let h = (self.headers[i].0.clone(), self.headers[i].1.clone());
            let ghost prev = headers.deep_view();
            headers.push(h);
            assert(headers.deep_view() =~= prev.push(h.deep_view()));
            assert(self.headers.deep_view().take(i + 1) =~= self.headers.deep_view().take(
                i as int,
            ).push(self.headers.deep_view()[i as int]));
        }
        assert(self.headers.deep_view().take(self.headers.len() as int) =~= self.headers.deep_view());
        CachedResponse { status: self.status, headers, contents: self.contents.clone() }
    }
}

/// The state of the entry for one key.
pub enum EntryState {
    /// A fetch is in flight; callers with the same key wait for it.
    Fetching,
    /// The last fetch succeeded; its response is served.
    Ready(CachedResponse),
    /// The last fetch's response could not be kept; the next caller fetches.
    Empty,
}

pub enum EntryView {
    Fetching,
    Ready(CachedResponseView),
    Empty,
}

impl View for EntryState {
    type V = EntryView;

    open spec fn view(&self) -> EntryView {
        match self {
            EntryState::Fetching => EntryView::Fetching,
            EntryState::Ready(r) => EntryView::Ready(r@),
            EntryState::Empty => EntryView::Empty,
        }
    }
}

/// What a caller is told to do.
pub enum Admission {
    /// Serve this stored response.
    Hit(CachedResponse),
    /// Fetch, then report the response with `complete`.
    Fetch,
    /// A fetch for the same key is in flight: wait for it, then ask again.
    Wait,
}

pub type CoalescerView = Map<Seq<char>, EntryView>;

/// Whether a response may be stored: its status is in the 2xx range.
pub open spec fn cacheable(r: CachedResponseView) -> bool {
    200 <= r.status < 300
}

/// Coalesces identical requests; entries live `staleness` nanoseconds.
pub struct DeadlineCacher {
    variants: Vec<(String, EntryState)>,
    staleness: u64,
}

spec fn entry_pairs(es: Seq<(String, EntryState)>) -> Seq<(Seq<char>, EntryView)> {
    es.map_values(|e: (String, EntryState)| (e.0@, e.1@))
}

/// The map a list of entries stands for.
spec fn entries_map(es: Seq<(String, EntryState)>) -> CoalescerView {
    assoc_map(entry_pairs(es))
}

spec fn keys_unique(es: Seq<(String, EntryState)>) -> bool {
    forall|i: int, j: int| 0 <= i < j < es.len() ==> es[i].0@ != es[j].0@
}

proof fn lemma_keys_distinct(es: Seq<(String, EntryState)>)
    requires
        keys_unique(es),
    ensures
        keys_distinct(entry_pairs(es)),
{
    assert forall|i: int, j: int| 0 <= i < j < entry_pairs(es).len() implies entry_pairs(es)[i].0
        != entry_pairs(es)[j].0 by {
        assert(es[i].0@ != es[j].0@);
    }
}

proof fn lemma_entries_map_has(es: Seq<(String, EntryState)>, i: int)
    requires
        keys_unique(es),
        0 <= i < es.len(),
    ensures
        entries_map(es).contains_key(es[i].0@),
        entries_map(es)[es[i].0@] == es[i].1@,
{
    lemma_keys_distinct(es);
    lemma_assoc_has(entry_pairs(es), i);
}

proof fn lemma_entries_map_lacks(es: Seq<(String, EntryState)>, k: Seq<char>)
    requires
        forall|i: int| 0 <= i < es.len() ==> es[i].0@ != k,
    ensures
        !entries_map(es).contains_key(k),
{
    assert forall|i: int| 0 <= i < entry_pairs(es).len() implies entry_pairs(es)[i].0 != k by {
        assert(es[i].0@ != k);
    }
    lemma_assoc_lacks(entry_pairs(es), k);
}

proof fn lemma_entries_map_update(es: Seq<(String, EntryState)>, i: int, e: (String, EntryState))
    requires
        keys_unique(es),
        0 <= i < es.len(),
        e.0@ == es[i].0@,
    ensures
        entries_map(es.update(i, e)) == entries_map(es).insert(e.0@, e.1@),
{
    lemma_keys_distinct(es);
    assert(entry_pairs(es.update(i, e)) =~= entry_pairs(es).update(i, (e.0@, e.1@)));
    lemma_assoc_update(entry_pairs(es), i, (e.0@, e.1@));
}

proof fn lemma_entries_map_push(es: Seq<(String, EntryState)>, e: (String, EntryState))
    ensures
        entries_map(es.push(e)) == entries_map(es).insert(e.0@, e.1@),
{
    assert(entry_pairs(es.push(e)) =~= entry_pairs(es).push((e.0@, e.1@)));
    lemma_assoc_push(entry_pairs(es), (e.0@, e.1@));
}

proof fn lemma_entries_map_remove(es: Seq<(String, EntryState)>, i: int)
    requires
        keys_unique(es),
        0 <= i < es.len(),
    ensures
        entries_map(es.remove(i)) == entries_map(es).remove(es[i].0@),
{
    lemma_keys_distinct(es);
    assert(entry_pairs(es.remove(i)) =~= entry_pairs(es).remove(i));
    lemma_assoc_remove(entry_pairs(es), i);
}

impl View for DeadlineCacher {
    type V = CoalescerView;

    closed spec fn view(&self) -> CoalescerView {
        entries_map(self.variants@)
    }
}

impl DeadlineCacher {
    /// How long an entry lives, in nanoseconds.
    pub closed spec fn lifetime(&self) -> u64 {
        self.staleness
    }

    /// How long an entry lives, in nanoseconds.
    pub fn staleness(&self) -> (r: u64)
        ensures
            r == self.lifetime(),
    {
        self.staleness
    }

    /// One entry per key, and every stored response is cacheable.
    pub closed spec fn wf(&self) -> bool {
        &&& keys_unique(self.variants@)
        &&& forall|i: int|
            0 <= i < self.variants@.len() ==> match #[trigger] self.variants@[i].1@ {
                EntryView::Ready(r) => cacheable(r),
                _ => true,
            }
    }

    /// Every response the coalescer holds has a 2xx status.
    pub open spec fn stores_only_success(m: CoalescerView) -> bool {
        forall|k: Seq<char>|
            #[trigger] m.contains_key(k) ==> match m[k] {
                EntryView::Ready(r) => cacheable(r),
                _ => true,
            }
    }

    proof fn lemma_wf_stores_only_success(&self)
        requires
            self.wf(),
        ensures
            Self::stores_only_success(self@),
    {
        assert forall|k: Seq<char>| #[trigger] self@.contains_key(k) implies match self@[k] {
            EntryView::Ready(r) => cacheable(r),
            _ => true,
        } by {
            if forall|i: int| 0 <= i < self.variants@.len() ==> self.variants@[i].0@ != k {
                lemma_entries_map_lacks(self.variants@, k);
            } else {
                let i = choose|i: int| 0 <= i < self.variants@.len() && self.variants@[i].0@ == k;
                lemma_entries_map_has(self.variants@, i);
            }
        }
    }

    /// An empty coalescer whose entries live `staleness` nanoseconds; 0
    /// disables it.
    pub fn new(staleness: u64) -> (r: DeadlineCacher)
        ensures
            r.wf(),
            r.lifetime() == staleness,
            r@ == Map::<Seq<char>, EntryView>::empty(),
    {
        let r = DeadlineCacher { variants: Vec::new(), staleness };
        assert(r@ =~= Map::<Seq<char>, EntryView>::empty());
        r
    }

    fn position(&self, key: &String) -> (r: Option<usize>)
        ensures
            match r {
                Some(i) => i < self.variants@.len() && self.variants@[i as int].0@ == key@,
                None => forall|i: int| 0 <= i < self.variants@.len() ==> self.variants@[i].0@ != key@,
            },
    {
        for i in 0..self.variants.len()
            invariant
                forall|j: int| 0 <= j < i ==> self.variants@[j].0@ != key@,
        {
            if self.variants[i].0 == *key {
                return Some(i);
            }
        }
        None
    }

    fn set_entry(&mut self, key: &String, state: EntryState)
        requires
            old(self).wf(),
            match state@ {
                EntryView::Ready(r) => cacheable(r),
                _ => true,
            },
        ensures
            final(self).wf(),
            final(self).lifetime() == old(self).lifetime(),
            final(self)@ == old(self)@.insert(key@, state@),
    {
        let entry = (key.clone(), state);
        match self.position(key) {
            Some(i) => {
                proof {
                    lemma_entries_map_update(self.variants@, i as int, entry);
                }
                let ghost before = self.variants@;
                self.variants.set(i, entry);
                proof {
                    assert forall|a: int| 0 <= a < self.variants@.len() implies match #[trigger] self.variants@[a].1@ {
                        EntryView::Ready(r) => cacheable(r),
                        _ => true,
                    } by {
                        if a != i {
                            assert(self.variants@[a] == before[a]);
                        }
                    }
                }
            },
            None => {
                let ghost before = self.variants@;
                self.variants.push(entry);
                proof {
                    assert(self.variants@ =~= before.push(entry));
                    lemma_entries_map_push(before, entry);
                    assert forall|a: int, b: int|
                        0 <= a < b < self.variants@.len() implies self.variants@[a].0@
                        != self.variants@[b].0@ by {
                        if b < before.len() {
                            assert(self.variants@[a] == before[a]);
                            assert(self.variants@[b] == before[b]);
                        }
                    }
                    assert forall|a: int| 0 <= a < self.variants@.len() implies match #[trigger] self.variants@[a].1@ {
                        EntryView::Ready(r) => cacheable(r),
                        _ => true,
                    } by {
                        if a < before.len() {
                            assert(self.variants@[a] == before[a]);
                        }
                    }
                }
            },
        }
    }

    /// Decides what a caller with `key` does. With a lifetime of 0 the
    /// coalescer is off: every caller fetches and nothing is recorded. A
    /// stored response is served; while a fetch is in flight callers wait;
    /// otherwise the caller fetches and the entry records the fetch.
    pub fn enter(&mut self, key: &String) -> (r: Admission)
        requires
            old(self).wf(),
        ensures
            final(self).wf(),
            final(self).lifetime() == old(self).lifetime(),
            old(self).lifetime() == 0 ==> r is Fetch && final(self)@ == old(self)@,
            old(self).lifetime() > 0 ==> match r {
                Admission::Hit(v) => {
                    &&& old(self)@.contains_key(key@)
                    &&& old(self)@[key@] == EntryView::Ready(v@)
                    &&& final(self)@ == old(self)@
                },
                Admission::Wait => {
                    &&& old(self)@.contains_key(key@)
                    &&& old(self)@[key@] == EntryView::Fetching
                    &&& final(self)@ == old(self)@
                },
                Admission::Fetch => {
                    &&& (!old(self)@.contains_key(key@) || old(self)@[key@] == EntryView::Empty)
                    &&& final(self)@ == old(self)@.insert(key@, EntryView::Fetching)
                },
            },
            r matches Admission::Hit(v) ==> cacheable(v@),
    {
        if self.staleness == 0 {
            return Admission::Fetch;
        }
        match self.position(key) {
            Some(i) => {
                proof {
                    lemma_entries_map_has(self.variants@, i as int);
                }
                match &self.variants[i].1 {
                    EntryState::Ready(v) => {
                        assert(match self.variants@[i as int].1@ {
                            EntryView::Ready(r) => cacheable(r),
                            _ => true,
                        });
                        return Admission::Hit(v.copy());
                    },
                    EntryState::Fetching => {
                        return Admission::Wait;
                    },
                    EntryState::Empty => {},
                }
            },
            None => {
                proof {
                    lemma_entries_map_lacks(self.variants@, key@);
                }
            },
        }
        self.set_entry(key, EntryState::Fetching);
        Admission::Fetch
    }

    /// Records the response of the fetch made for `key`: stored when its
    /// status is 2xx, otherwise the entry is left empty so that the next
    /// caller fetches. Returns whether the entry's removal must be scheduled
    /// (after `staleness`), which is whenever the coalescer is on.
    pub fn complete(&mut self, key: &String, response: &CachedResponse) -> (r: bool)
        requires
            old(self).wf(),
        ensures
            final(self).wf(),
            final(self).lifetime() == old(self).lifetime(),
            r == (old(self).lifetime() > 0),
            old(self).lifetime() == 0 ==> final(self)@ == old(self)@,
            old(self).lifetime() > 0 ==> final(self)@ == old(self)@.insert(
                key@,
                if cacheable(response@) {
                    EntryView::Ready(response@)
                } else {
                    EntryView::Empty
                },
            ),
    {
        if self.staleness == 0 {
            return false;
        }
        if is_success(response.status) {
            self.set_entry(key, EntryState::Ready(response.copy()));
        } else {
            self.set_entry(key, EntryState::Empty);
        }
        true
    }

    /// Removes the entry for `key`, once its lifetime has elapsed.
    pub fn expire(&mut self, key: &String)
        requires
            old(self).wf(),
        ensures
            final(self).wf(),
            final(self).lifetime() == old(self).lifetime(),
            final(self)@ == old(self)@.remove(key@),
    {
        match self.position(key) {
            Some(i) => {
                proof {
                    lemma_entries_map_remove(self.variants@, i as int);
                }
                let ghost before = self.variants@;
                self.variants.remove(i);
                proof {
                    assert(self.variants@ =~= before.remove(i as int));
                    assert forall|a: int, b: int|
                        0 <= a < b < self.variants@.len() implies self.variants@[a].0@
                        != self.variants@[b].0@ by {
                        let a0 = if a < i { a } else { a + 1 };
                        let b0 = if b < i { b } else { b + 1 };
                        assert(self.variants@[a] == before[a0]);
                        assert(self.variants@[b] == before[b0]);
                    }
                    assert forall|a: int| 0 <= a < self.variants@.len() implies match #[trigger] self.variants@[a].1@ {
                        EntryView::Ready(r) => cacheable(r),
                        _ => true,
                    } by {
                        let a0 = if a < i { a } else { a + 1 };
                        assert(self.variants@[a] == before[a0]);
                    }
                }
            },
            None => {
                proof {
                    lemma_entries_map_lacks(self.variants@, key@);
                    assert(self@ =~= self@.remove(key@));
                }
            },
        }
    }
}

/// An optional header value as part of a request key: `-` when absent;
/// `+` and the value's bytes read as Latin-1 characters when present.
pub open spec fn key_part(v: Option<Seq<u8>>) -> Seq<char> {
    match v {
        None => "-"@,
        Some(b) => "+"@ + b.map_values(|x: u8| x as char),
    }
}

/// The key under which requests are coalesced: the request URI, the
/// `Authorization` value and the `Proxy-Authorization` value, separated by
/// newlines.
pub open spec fn request_key(
    uri: Seq<char>,
    authorization: Option<Seq<u8>>,
    proxy_authorization: Option<Seq<u8>>,
) -> Seq<char> {
    uri + "\n"@ + key_part(authorization) + "\n"@ + key_part(proxy_authorization)
}

fn append_key_part(out: &mut String, v: Option<&Vec<u8>>)
    ensures
        final(out)@ == old(out)@ + key_part(
            match v {
                Some(b) => Some(b@),
                None => None,
            },
        ),
{
    match v {
        None => {
            out.append("-");
        },
        Some(b) => {
            out.append("+");
            let ghost start = out@;
            for i in 0..b.len()
                invariant
                    out@ == start + b@.take(i as int).map_values(|x: u8| x as char),
            {
                push_char(out, b[i] as char);
                assert(b@.take(i + 1).map_values(|x: u8| x as char) =~= b@.take(i as int).map_values(
                    |x: u8| x as char,
                ).push(b[i as int] as char));
            }
            assert(b@.take(b.len() as int) =~= b@);
        },
    }
}

/// The coalescing key of a request.
pub fn cache_key(
    uri: &str,
    authorization: Option<&Vec<u8>>,
    proxy_authorization: Option<&Vec<u8>>,
) -> (r: String)
    ensures
        r@ == request_key(
            uri@,
            match authorization {
                Some(b) => Some(b@),
                None => None,
            },
            match proxy_authorization {
                Some(b) => Some(b@),
                None => None,
            },
        ),
{
    let mut out = text_of(uri);
    out.append("\n");
    append_key_part(&mut out, authorization);
    out.append("\n");
    append_key_part(&mut out, proxy_authorization);
    out
}

/// Whether `s` holds no newline.
pub open spec fn no_newline(s: Seq<char>) -> bool {
    forall|i: int| 0 <= i < s.len() ==> s[i] != '\n'
}

proof fn lemma_split_at_newline(x1: Seq<char>, y1: Seq<char>, x2: Seq<char>, y2: Seq<char>)
    requires
        no_newline(x1),
        no_newline(x2),
        x1 + "\n"@ + y1 == x2 + "\n"@ + y2,
    ensures
        x1 == x2,
        y1 == y2,
{
    reveal_strlit("\n");
    let k1 = x1 + "\n"@ + y1;
    let k2 = x2 + "\n"@ + y2;
    if x1.len() < x2.len() {
        assert(k1[x1.len() as int] == '\n');
        assert(k2[x1.len() as int] == x2[x1.len() as int]);
    } else if x2.len() < x1.len() {
        assert(k2[x2.len() as int] == '\n');
        assert(k1[x2.len() as int] == x1[x2.len() as int]);
    } else {
        assert(x1 =~= k1.subrange(0, x1.len() as int));
        assert(x2 =~= k2.subrange(0, x2.len() as int));
        assert(y1 =~= k1.subrange(x1.len() as int + 1, k1.len() as int));
        assert(y2 =~= k2.subrange(x2.len() as int + 1, k2.len() as int));
    }
}

proof fn lemma_key_part_no_newline(v: Option<Seq<u8>>)
    requires
        v matches Some(b) ==> forall|i: int| 0 <= i < b.len() ==> b[i] != 10u8,
    ensures
        no_newline(key_part(v)),
{
    reveal_strlit("-");
    reveal_strlit("+");
    match v {
        None => {},
        Some(b) => {
            let t = key_part(v);
            assert forall|i: int| 0 <= i < t.len() implies t[i] != '\n' by {
                if i > 0 {
                    assert(t[i] == b[i - 1] as char);
                }
            }
        },
    }
}

proof fn lemma_key_part_injective(a: Option<Seq<u8>>, b: Option<Seq<u8>>)
    requires
        key_part(a) == key_part(b),
    ensures
        a == b,
{
    reveal_strlit("-");
    reveal_strlit("+");
    match (a, b) {
        (Some(x), Some(y)) => {
            let t = key_part(a);
            assert("+"@ =~= seq!['+']);
            assert(t.len() == 1 + x.len());
            assert(key_part(b).len() == 1 + y.len());
            assert(x.len() == y.len());
            assert forall|i: int| 0 <= i < x.len() implies x[i] == y[i] by {
                assert(t[i + 1] == x[i] as char);
                assert(key_part(b)[i + 1] == y[i] as char);
            }
            assert(x =~= y);
        },
        (Some(x), None) => {
            assert(key_part(a)[0] == '+');
        },
        (None, Some(y)) => {
            assert(key_part(b)[0] == '+');
        },
        (None, None) => {},
    }
}

/// Requests that present different `Authorization` values never share a
/// key. URIs and header values hold no newline, as HTTP guarantees.
pub proof fn lemma_distinct_authorization_distinct_keys(
    uri1: Seq<char>,
    auth1: Option<Seq<u8>>,
    proxy1: Option<Seq<u8>>,
    uri2: Seq<char>,
    auth2: Option<Seq<u8>>,
    proxy2: Option<Seq<u8>>,
)
    requires
        no_newline(uri1),
        no_newline(uri2),
        auth1 matches Some(b) ==> forall|i: int| 0 <= i < b.len() ==> b[i] != 10u8,
        auth2 matches Some(b) ==> forall|i: int| 0 <= i < b.len() ==> b[i] != 10u8,
        auth1 != auth2,
    ensures
        request_key(uri1, auth1, proxy1) != request_key(uri2, auth2, proxy2),
{
    if request_key(uri1, auth1, proxy1) == request_key(uri2, auth2, proxy2) {
        let nl = "\n"@;
        let e1 = key_part(auth1);
        let e2 = key_part(auth2);
        let p1 = key_part(proxy1);
        let p2 = key_part(proxy2);
        assert(request_key(uri1, auth1, proxy1) =~= uri1 + nl + (e1 + nl + p1));
        assert(request_key(uri2, auth2, proxy2) =~= uri2 + nl + (e2 + nl + p2));
        lemma_split_at_newline(uri1, e1 + nl + p1, uri2, e2 + nl + p2);
        lemma_key_part_no_newline(auth1);
        lemma_key_part_no_newline(auth2);
        lemma_split_at_newline(e1, p1, e2, p2);
        lemma_key_part_injective(auth1, auth2);
    }
}

/// The coalescer holds only 2xx responses, whatever sequence of calls led
/// to its state; hence a hit always serves a response that was 2xx when it
/// was fetched.
pub proof fn lemma_stores_only_success(c: DeadlineCacher)
    requires
        c.wf(),
    ensures
        DeadlineCacher::stores_only_success(c@),
{
    c.lemma_wf_stores_only_success();
}

} // verus!
