//! The label-filter engine. Each sample goes through the filters in order;
//! a matching filter's actions set whether the sample is kept and whether it
//! is passed on from, or stored into, the sample cache. One pass over a
//! scrape uses a single instant, and the cache it leaves behind.

use crate::config::{LabelFilter, LabelFilterAction, LabelFilterView};
use crate::exposition::{Sample, SampleView, Scrape, ScrapeView};
use crate::pattern::regex_is_match;
use crate::render::{
    distinct_metrics, group_header, groups_lines, metric_order, render,
};
use crate::sample_cache::{
    cache_consistent, cache_get, cache_put, fingerprint, has_name_label,
    lemma_fingerprint_identifies_series, CacheView, SampleCacheStore,
};
use crate::text::text_order;
use crate::text::{find_pair, join, join_texts, lookup_pair, text_of};
use vstd::prelude::*;

verus! {

/// The value of label `name` of `s`: the metric name for `__name__`, and the
/// empty string for a label that `s` lacks.
pub open spec fn label_value(s: SampleView, name: Seq<char>) -> Seq<char> {
    if name == "__name__"@ {
        s.metric
    } else {
        match lookup_pair(s.labels, name) {
            Some(v) => v,
            None => Seq::empty(),
        }
    }
}

/// The values of the filter's source labels joined by its separator.
pub open spec fn joined_values(f: LabelFilterView, s: SampleView) -> Seq<char> {
    join(f.source_labels.map_values(|n: Seq<char>| label_value(s, n)), f.separator)
}

/// Whether filter `f` applies to `s`.
pub open spec fn filter_matches(f: LabelFilterView, s: SampleView) -> bool {
    regex_is_match(f.pattern, joined_values(f, s))
}

/// Where the evaluation of one sample stands: the last keep or drop, the
/// sample the cache handed back at the last lookup, and whether a lookup
/// was made.
pub struct Verdict {
    pub keep: Option<bool>,
    pub cached: Option<SampleView>,
    pub must_cache: bool,
}

pub open spec fn initial_verdict() -> Verdict {
    Verdict { keep: None, cached: None, must_cache: false }
}

/// The effect of one action.
pub open spec fn act(
    v: Verdict,
    a: LabelFilterAction,
    s: SampleView,
    cache: CacheView,
    now: u64,
) -> Verdict {
    match a {
        LabelFilterAction::Keep => Verdict { keep: Some(true), ..v },
        LabelFilterAction::Drop => Verdict { keep: Some(false), ..v },
        LabelFilterAction::ReduceTimeResolution { resolution } => Verdict {
            cached: cache_get(cache, s, now, resolution),
            must_cache: true,
            ..v
        },
    }
}

/// The effect of a list of actions, in order.
pub open spec fn act_all(
    v: Verdict,
    actions: Seq<LabelFilterAction>,
    s: SampleView,
    cache: CacheView,
    now: u64,
) -> Verdict
    decreases actions.len(),
{
    if actions.len() == 0 {
        v
    } else {
        act(act_all(v, actions.drop_last(), s, cache, now), actions.last(), s, cache, now)
    }
}

/// The verdict on `s` after the filters `filters`, in order.
pub open spec fn verdict(
    filters: Seq<LabelFilterView>,
    s: SampleView,
    cache: CacheView,
    now: u64,
) -> Verdict
    decreases filters.len(),
{
    if filters.len() == 0 {
        initial_verdict()
    } else {
        let v = verdict(filters.drop_last(), s, cache, now);
        if filter_matches(filters.last(), s) {
            act_all(v, filters.last().actions, s, cache, now)
        } else {
            v
        }
    }
}

/// The outcome of a pass: the samples passed on, the HELP entries of the
/// metrics passed on, and the cache afterwards.
pub struct PassView {
    pub samples: Seq<SampleView>,
    pub docs: Seq<(Seq<char>, Seq<char>)>,
    pub cache: CacheView,
}

/// A pass of the filters over `samples`, with HELP entries from `docs`,
/// starting from `cache`, at instant `now`.
pub open spec fn filter_pass(
    filters: Seq<LabelFilterView>,
    samples: Seq<SampleView>,
    docs: Seq<(Seq<char>, Seq<char>)>,
    cache: CacheView,
    now: u64,
) -> PassView
    decreases samples.len(),
{
    if samples.len() == 0 {
        PassView { samples: Seq::empty(), docs: Seq::empty(), cache }
    } else {
        let prev = filter_pass(filters, samples.drop_last(), docs, cache, now);
        let s = samples.last();
        let v = verdict(filters, s, prev.cache, now);
        if v.keep == Some(false) {
            prev
        } else {
            let out_docs = if lookup_pair(prev.docs, s.metric) is None && lookup_pair(
                docs,
                s.metric,
            ) is Some {
                prev.docs.push((s.metric, lookup_pair(docs, s.metric)->Some_0))
            } else {
                prev.docs
            };
            match v.cached {
                Some(c) => PassView { samples: prev.samples.push(c), docs: out_docs, cache: prev.cache },
                None => PassView {
                    samples: prev.samples.push(s),
                    docs: out_docs,
                    cache: if v.must_cache {
                        cache_put(prev.cache, s, now)
                    } else {
                        prev.cache
                    },
                },
            }
        }
    }
}

/// The filters as their views.
pub open spec fn filters_view(filters: Seq<LabelFilter>) -> Seq<LabelFilterView> {
    filters.map_values(|f: LabelFilter| f@)
}

/// The result of a pass over `input` as a scrape.
pub open spec fn pass_scrape(p: PassView) -> ScrapeView {
    ScrapeView { samples: p.samples, docs: p.docs }
}

/// The value of label `name` of `sample`.
fn label_value_of(sample: &Sample, name: &String) -> (r: String)
    ensures
        r@ == label_value(sample@, name@),
{
    let dunder = text_of("__name__");
    if *name == dunder {
        sample.metric.clone()
    } else {
        match find_pair(&sample.labels, name) {
            Some(v) => v,
            None => String::new(),
        }
    }
}

/// The values of the filter's source labels joined by its separator.
fn joined_label_values(filter: &LabelFilter, sample: &Sample) -> (r: String)
    ensures
        r@ == joined_values(filter@, sample@),
{
    let ghost want = filter@.source_labels.map_values(|n: Seq<char>| label_value(sample@, n));
    let mut values: Vec<String> = Vec::new();
    for i in 0..filter.source_labels.len()
        invariant
            want == filter@.source_labels.map_values(|n: Seq<char>| label_value(sample@, n)),
            values.deep_view() == want.take(i as int),
    {
        let v = label_value_of(sample, &filter.source_labels[i]);
        let ghost prev = values.deep_view();
        values.push(v);
        assert(values.deep_view() =~= prev.push(v@));
        assert(want.take(i + 1) =~= want.take(i as int).push(want[i as int]));
    }
    assert(want.take(filter.source_labels.len() as int) =~= want);
    join_texts(&values, filter.separator.as_str())
}

/// The verdict on one sample, as values.
pub struct Decision {
    pub keep: Option<bool>,
    pub cached: Option<Sample>,
    pub must_cache: bool,
}

impl View for Decision {
    type V = Verdict;

    open spec fn view(&self) -> Verdict {
        Verdict {
            keep: self.keep,
            cached: match self.cached {
                Some(c) => Some(c@),
                None => None,
            },
            must_cache: self.must_cache,
        }
    }
}

impl Decision {
    /// Applies the actions of a filter that matched `sample`, in order,
    /// looking up `cache` at `now`.
    pub fn apply_actions(
        &mut self,
        actions: &Vec<LabelFilterAction>,
        sample: &Sample,
        cache: &SampleCacheStore,
        now: u64,
    )
        requires
            cache.wf(),
        ensures
            final(self)@ == act_all(old(self)@, actions@, sample@, cache@, now),
    {
        let ghost start = self@;
        let ghost acts = actions@;
        for j in 0..actions.len()
            invariant
                acts == actions@,
                cache.wf(),
                self@ == act_all(start, acts.take(j as int), sample@, cache@, now),
        {
            assert(acts.take(j + 1).drop_last() =~= acts.take(j as int));
            match actions[j] {
                LabelFilterAction::Keep => {
                    self.keep = Some(true);
                },
                LabelFilterAction::Drop => {
                    self.keep = Some(false);
                },
                LabelFilterAction::ReduceTimeResolution { resolution } => {
                    self.cached = cache.get(sample, now, resolution);
                    self.must_cache = true;
                },
            }
        }
        assert(acts.take(actions.len() as int) =~= acts);
    }
}

/// The verdict of `filters` on `sample`, looking up `cache` at `now`.
pub fn evaluate(filters: &Vec<LabelFilter>, sample: &Sample, cache: &SampleCacheStore, now: u64) -> (r:
    Decision)
    requires
        cache.wf(),
    ensures
        r@ == verdict(filters_view(filters@), sample@, cache@, now),
{
    let ghost fs = filters_view(filters@);
    let mut d = Decision { keep: None, cached: None, must_cache: false };
    for i in 0..filters.len()
        invariant
            fs == filters_view(filters@),
            cache.wf(),
            d@ == verdict(fs.take(i as int), sample@, cache@, now),
    {
        assert(fs.take(i + 1).drop_last() =~= fs.take(i as int));
        assert(fs.take(i + 1).last() == filters[i as int]@);
        let filter = &filters[i];
        let joined = joined_label_values(filter, sample);
        if filter.regex.is_match(joined.as_str()) {
            d.apply_actions(&filter.actions, sample, cache, now);
        }
    }
    assert(fs.take(filters.len() as int) =~= fs);
    d
}

/// One pass of `filters` over `series` at instant `now`, reading and filling
/// `cache`.
pub fn run_filters(
    filters: &Vec<LabelFilter>,
    cache: &mut SampleCacheStore,
    series: &Scrape,
    now: u64,
) -> (r: Scrape)
    requires
        old(cache).wf(),
    ensures
        final(cache).wf(),
        ({
            let p = filter_pass(
                filters_view(filters@),
                series@.samples,
                series@.docs,
                old(cache)@,
                now,
            );
            r@ == pass_scrape(p) && final(cache)@ == p.cache
        }),
{
    let ghost fs = filters_view(filters@);
    let ghost ss = series@.samples;
    let ghost ds = series@.docs;
    let ghost c0 = cache@;
    let mut samples: Vec<Sample> = Vec::new();
    let mut docs: Vec<(String, String)> = Vec::new();
    for i in 0..series.samples.len()
        invariant
            fs == filters_view(filters@),
            ss == series@.samples,
            ss.len() == series.samples.len(),
            ds == series@.docs,
            cache.wf(),
            ({
                let p = filter_pass(fs, ss.take(i as int), ds, c0, now);
                samples@.map_values(|x: Sample| x@) == p.samples && docs.deep_view() == p.docs
                    && cache@ == p.cache
            }),
    {
        assert(ss.take(i + 1).drop_last() =~= ss.take(i as int));
        assert(ss.take(i + 1).last() == series.samples[i as int]@);
        let sample = &series.samples[i];
        let d = evaluate(filters, sample, cache, now);
        let dropped = match d.keep {
            Some(k) => !k,
            None => false,
        };
        if !dropped {
            let ghost docs_before = docs.deep_view();
            if find_pair(&docs, &sample.metric).is_none() {
                match find_pair(&series.docs, &sample.metric) {
                    Some(h) => {
                        docs.push((sample.metric.clone(), h));
                        assert(docs.deep_view() =~= docs_before.push((sample@.metric, h@)));
                    },
                    None => {},
                }
            }
            let ghost prev = samples@.map_values(|x: Sample| x@);
            match d.cached {
                Some(c) => {
                    let ghost cv = c@;
                    samples.push(c);
                    assert(samples@.map_values(|x: Sample| x@) =~= prev.push(cv));
                },
                None => {
                    if d.must_cache {
                        cache.put(sample.copy(), now);
                    }
                    let kept = sample.copy();
                    samples.push(kept);
                    assert(samples@.map_values(|x: Sample| x@) =~= prev.push(sample@));
                },
            }
        }
    }
    assert(ss.take(series.samples.len() as int) =~= ss);
    Scrape { samples, docs }
}

/// Whether some sample of `samples` is named `m`.
pub open spec fn has_metric(samples: Seq<SampleView>, m: Seq<char>) -> bool {
    exists|i: int| 0 <= i < samples.len() && samples[i].metric == m
}

proof fn lemma_lookup_push(xs: Seq<(Seq<char>, Seq<char>)>, p: (Seq<char>, Seq<char>), k: Seq<char>)
    ensures
        lookup_pair(xs.push(p), k) == match lookup_pair(xs, k) {
            Some(v) => Some(v),
            None => if p.0 == k {
                Some(p.1)
            } else {
                None
            },
        },
{
    assert(xs.push(p).drop_last() =~= xs);
}

/// Without filters a pass hands every sample on as it is, leaves the cache
/// alone, and keeps the HELP text of every metric it hands on.
proof fn lemma_empty_pass(
    samples: Seq<SampleView>,
    docs: Seq<(Seq<char>, Seq<char>)>,
    cache: CacheView,
    now: u64,
)
    ensures
        ({
            let p = filter_pass(Seq::empty(), samples, docs, cache, now);
            &&& p.samples == samples
            &&& p.cache == cache
            &&& forall|m: Seq<char>| has_metric(samples, m) ==> lookup_pair(p.docs, m) == lookup_pair(docs, m)
            &&& forall|m: Seq<char>| #[trigger] lookup_pair(p.docs, m) is Some ==> lookup_pair(p.docs, m) == lookup_pair(docs, m)
        }),
    decreases samples.len(),
{
    if samples.len() > 0 {
        let rest = samples.drop_last();
        lemma_empty_pass(rest, docs, cache, now);
        let prev = filter_pass(Seq::empty(), rest, docs, cache, now);
        let s = samples.last();
        let p = filter_pass(Seq::empty(), samples, docs, cache, now);
        assert(verdict(Seq::empty(), s, prev.cache, now) == initial_verdict());
        assert(p.samples =~= samples);
        if lookup_pair(prev.docs, s.metric) is None && lookup_pair(docs, s.metric) is Some {
            let e = (s.metric, lookup_pair(docs, s.metric)->Some_0);
            assert(p.docs == prev.docs.push(e));
            assert forall|m: Seq<char>| #[trigger] lookup_pair(p.docs, m) is Some implies lookup_pair(
                p.docs,
                m,
            ) == lookup_pair(docs, m) by {
                lemma_lookup_push(prev.docs, e, m);
            }
            assert forall|m: Seq<char>| has_metric(samples, m) implies lookup_pair(p.docs, m)
                == lookup_pair(docs, m) by {
                lemma_lookup_push(prev.docs, e, m);
                if m != s.metric {
                    let i = choose|i: int| 0 <= i < samples.len() && samples[i].metric == m;
                    assert(rest[i].metric == m);
                }
            }
        } else {
            assert forall|m: Seq<char>| has_metric(samples, m) implies lookup_pair(p.docs, m)
                == lookup_pair(docs, m) by {
                if m != s.metric {
                    let i = choose|i: int| 0 <= i < samples.len() && samples[i].metric == m;
                    assert(rest[i].metric == m);
                }
            }
        }
    }
}

proof fn lemma_distinct_metrics_present(samples: Seq<SampleView>, m: Seq<char>)
    requires
        distinct_metrics(samples).contains(m),
    ensures
        has_metric(samples, m),
    decreases samples.len(),
{
    if samples.len() > 0 {
        let rest = samples.drop_last();
        if m != samples.last().metric {
            lemma_distinct_metrics_present(rest, m);
            let i = choose|i: int| 0 <= i < rest.len() && rest[i].metric == m;
            assert(samples[i].metric == m);
        } else {
            assert(samples[samples.len() - 1].metric == m);
        }
    }
}

proof fn lemma_groups_agree(s1: ScrapeView, s2: ScrapeView, names: Seq<Seq<char>>)
    requires
        s1.samples == s2.samples,
        forall|i: int|
            0 <= i < names.len() ==> lookup_pair(s1.docs, #[trigger] names[i]) == lookup_pair(
                s2.docs,
                names[i],
            ),
    ensures
        groups_lines(s1, names) == groups_lines(s2, names),
    decreases names.len(),
{
    if names.len() > 0 {
        lemma_groups_agree(s1, s2, names.drop_last());
        assert(lookup_pair(s1.docs, names[names.len() - 1]) == lookup_pair(s2.docs, names[names.len() - 1]));
        assert(group_header(s1, names.last()) == group_header(s2, names.last()));
    }
}

/// Filtering with an empty filter list changes nothing that is rendered,
/// and leaves the sample cache as it was.
pub proof fn lemma_empty_filters_render_unchanged(s: ScrapeView, cache: CacheView, now: u64)
    ensures
        ({
            let p = filter_pass(Seq::empty(), s.samples, s.docs, cache, now);
            render(pass_scrape(p)) == render(s) && p.cache == cache
        }),
{
    let p = filter_pass(Seq::empty(), s.samples, s.docs, cache, now);
    let out = pass_scrape(p);
    lemma_empty_pass(s.samples, s.docs, cache, now);
    let names = metric_order(s);
    assert(metric_order(out) == names);
    crate::text::lemma_text_order_total();
    distinct_metrics(s.samples).lemma_sort_by_ensures(text_order());
    assert forall|i: int| 0 <= i < names.len() implies lookup_pair(out.docs, #[trigger] names[i])
        == lookup_pair(s.docs, names[i]) by {
        assert(names.contains(names[i]));
        assert(distinct_metrics(s.samples).contains(names[i]));
        lemma_distinct_metrics_present(s.samples, names[i]);
    }
    lemma_groups_agree(out, s, names);
}

/// Whether every action of every filter is `drop`.
pub open spec fn drop_only(filters: Seq<LabelFilterView>) -> bool {
    forall|i: int, j: int|
        0 <= i < filters.len() && 0 <= j < filters[i].actions.len() ==> filters[i].actions[j]
            == LabelFilterAction::Drop
}

/// Whether some filter has an action.
pub open spec fn some_action(filters: Seq<LabelFilterView>) -> bool {
    exists|i: int| 0 <= i < filters.len() && filters[i].actions.len() > 0
}

proof fn lemma_act_all_drops(
    v: Verdict,
    actions: Seq<LabelFilterAction>,
    s: SampleView,
    cache: CacheView,
    now: u64,
)
    requires
        forall|j: int| 0 <= j < actions.len() ==> actions[j] == LabelFilterAction::Drop,
    ensures
        act_all(v, actions, s, cache, now).keep == if actions.len() > 0 {
            Some(false)
        } else {
            v.keep
        },
    decreases actions.len(),
{
    if actions.len() > 0 {
        lemma_act_all_drops(v, actions.drop_last(), s, cache, now);
    }
}

proof fn lemma_verdict_drops(
    filters: Seq<LabelFilterView>,
    s: SampleView,
    cache: CacheView,
    now: u64,
)
    requires
        drop_only(filters),
        forall|i: int| 0 <= i < filters.len() ==> filter_matches(#[trigger] filters[i], s),
    ensures
        verdict(filters, s, cache, now).keep == if some_action(filters) {
            Some(false)
        } else {
            None::<bool>
        },
    decreases filters.len(),
{
    if filters.len() > 0 {
        let rest = filters.drop_last();
        assert(drop_only(rest)) by {
            assert forall|i: int, j: int|
                0 <= i < rest.len() && 0 <= j < rest[i].actions.len() implies rest[i].actions[j]
                == LabelFilterAction::Drop by {
                assert(rest[i] == filters[i]);
            }
        }
        assert forall|i: int| 0 <= i < rest.len() implies filter_matches(#[trigger] rest[i], s) by {
            assert(rest[i] == filters[i]);
        }
        lemma_verdict_drops(rest, s, cache, now);
        let last = filters.last();
        assert(filter_matches(filters[filters.len() - 1], s));
        assert forall|j: int| 0 <= j < last.actions.len() implies last.actions[j]
            == LabelFilterAction::Drop by {
            assert(filters[filters.len() - 1] == last);
        }
        lemma_act_all_drops(verdict(rest, s, cache, now), last.actions, s, cache, now);
        if some_action(rest) {
            let i = choose|i: int| 0 <= i < rest.len() && rest[i].actions.len() > 0;
            assert(filters[i] == rest[i]);
        }
        if some_action(filters) && !some_action(rest) {
            let i = choose|i: int| 0 <= i < filters.len() && filters[i].actions.len() > 0;
            if i < rest.len() {
                assert(rest[i] == filters[i]);
            }
        }
    }
}

/// When every filter only drops, some filter has an action, and every filter
/// matches every sample, nothing passes: no sample and no HELP entry.
pub proof fn lemma_matching_drops_empty_the_scrape(
    filters: Seq<LabelFilterView>,
    samples: Seq<SampleView>,
    docs: Seq<(Seq<char>, Seq<char>)>,
    cache: CacheView,
    now: u64,
)
    requires
        drop_only(filters),
        some_action(filters),
        forall|i: int, k: int|
            0 <= i < filters.len() && 0 <= k < samples.len() ==> filter_matches(
                #[trigger] filters[i],
                #[trigger] samples[k],
            ),
    ensures
        filter_pass(filters, samples, docs, cache, now).samples.len() == 0,
        filter_pass(filters, samples, docs, cache, now).docs.len() == 0,
        filter_pass(filters, samples, docs, cache, now).cache == cache,
    decreases samples.len(),
{
    if samples.len() > 0 {
        let rest = samples.drop_last();
        assert forall|i: int, k: int|
            0 <= i < filters.len() && 0 <= k < rest.len() implies filter_matches(
            #[trigger] filters[i],
            #[trigger] rest[k],
        ) by {
            assert(rest[k] == samples[k]);
        }
        lemma_matching_drops_empty_the_scrape(filters, rest, docs, cache, now);
        let s = samples.last();
        assert forall|i: int| 0 <= i < filters.len() implies filter_matches(#[trigger] filters[i], s) by {
            assert(samples[samples.len() - 1] == s);
        }
        lemma_verdict_drops(filters, s, filter_pass(filters, rest, docs, cache, now).cache, now);
    }
}

/// Whether no filter has a `drop` action.
pub open spec fn no_drop(filters: Seq<LabelFilterView>) -> bool {
    forall|i: int, j: int|
        0 <= i < filters.len() && 0 <= j < filters[i].actions.len() ==> filters[i].actions[j]
            != LabelFilterAction::Drop
}

proof fn lemma_act_all_no_drop(
    v: Verdict,
    actions: Seq<LabelFilterAction>,
    s: SampleView,
    cache: CacheView,
    now: u64,
)
    requires
        forall|j: int| 0 <= j < actions.len() ==> actions[j] != LabelFilterAction::Drop,
        v.keep != Some(false),
        cache_consistent(cache),
        v.cached matches Some(c) ==> fingerprint(c) == fingerprint(s),
    ensures
        act_all(v, actions, s, cache, now).keep != Some(false),
        act_all(v, actions, s, cache, now).cached matches Some(c) ==> fingerprint(c) == fingerprint(s),
    decreases actions.len(),
{
    if actions.len() > 0 {
        lemma_act_all_no_drop(v, actions.drop_last(), s, cache, now);
    }
}

proof fn lemma_verdict_no_drop(
    filters: Seq<LabelFilterView>,
    s: SampleView,
    cache: CacheView,
    now: u64,
)
    requires
        no_drop(filters),
        cache_consistent(cache),
    ensures
        verdict(filters, s, cache, now).keep != Some(false),
        verdict(filters, s, cache, now).cached matches Some(c) ==> fingerprint(c) == fingerprint(s),
    decreases filters.len(),
{
    if filters.len() > 0 {
        let rest = filters.drop_last();
        assert(no_drop(rest)) by {
            assert forall|i: int, j: int|
                0 <= i < rest.len() && 0 <= j < rest[i].actions.len() implies rest[i].actions[j]
                != LabelFilterAction::Drop by {
                assert(rest[i] == filters[i]);
            }
        }
        lemma_verdict_no_drop(rest, s, cache, now);
        let last = filters.last();
        assert forall|j: int| 0 <= j < last.actions.len() implies last.actions[j]
            != LabelFilterAction::Drop by {
            assert(filters[filters.len() - 1] == last);
        }
        lemma_act_all_no_drop(verdict(rest, s, cache, now), last.actions, s, cache, now);
    }
}

/// Filters without a `drop` action, such as time-resolution reduction alone,
/// remove no sample: each sample is handed on, either as it is or as the
/// sample of the same series that the cache handed back.
pub proof fn lemma_no_drop_removes_nothing(
    filters: Seq<LabelFilterView>,
    samples: Seq<SampleView>,
    docs: Seq<(Seq<char>, Seq<char>)>,
    cache: CacheView,
    now: u64,
)
    requires
        no_drop(filters),
        cache_consistent(cache),
    ensures
        ({
            let p = filter_pass(filters, samples, docs, cache, now);
            &&& p.samples.len() == samples.len()
            &&& forall|i: int|
                0 <= i < samples.len() ==> p.samples[i] == samples[i] || fingerprint(
                    #[trigger] p.samples[i],
                ) == fingerprint(samples[i])
            &&& cache_consistent(p.cache)
        }),
    decreases samples.len(),
{
    if samples.len() > 0 {
        let rest = samples.drop_last();
        lemma_no_drop_removes_nothing(filters, rest, docs, cache, now);
        let prev = filter_pass(filters, rest, docs, cache, now);
        let s = samples.last();
        lemma_verdict_no_drop(filters, s, prev.cache, now);
        let p = filter_pass(filters, samples, docs, cache, now);
        assert forall|i: int|
            0 <= i < samples.len() implies p.samples[i] == samples[i] || fingerprint(
            #[trigger] p.samples[i],
        ) == fingerprint(samples[i]) by {
            if i < rest.len() {
                assert(p.samples[i] == prev.samples[i]);
                assert(samples[i] == rest[i]);
            }
        }
        assert forall|k: Seq<(Seq<char>, Seq<char>)>| #[trigger] p.cache.contains_key(k) implies fingerprint(
            p.cache[k].0,
        ) == k by {
            if k != fingerprint(s) {
                assert(prev.cache.contains_key(k));
            }
        }
    }
}

/// Whether no stored sample has a label named `__name__`.
pub open spec fn cache_without_name_labels(cache: CacheView) -> bool {
    forall|k: Seq<(Seq<char>, Seq<char>)>| #[trigger] cache.contains_key(k) ==> !has_name_label(cache[k].0)
}

proof fn lemma_act_all_cached_unnamed(
    v: Verdict,
    actions: Seq<LabelFilterAction>,
    s: SampleView,
    cache: CacheView,
    now: u64,
)
    requires
        cache_without_name_labels(cache),
        v.cached matches Some(c) ==> !has_name_label(c),
    ensures
        act_all(v, actions, s, cache, now).cached matches Some(c) ==> !has_name_label(c),
    decreases actions.len(),
{
    if actions.len() > 0 {
        lemma_act_all_cached_unnamed(v, actions.drop_last(), s, cache, now);
    }
}

proof fn lemma_verdict_cached_unnamed(
    filters: Seq<LabelFilterView>,
    s: SampleView,
    cache: CacheView,
    now: u64,
)
    requires
        cache_without_name_labels(cache),
    ensures
        verdict(filters, s, cache, now).cached matches Some(c) ==> !has_name_label(c),
    decreases filters.len(),
{
    if filters.len() > 0 {
        let rest = filters.drop_last();
        lemma_verdict_cached_unnamed(rest, s, cache, now);
        lemma_act_all_cached_unnamed(verdict(rest, s, cache, now), filters.last().actions, s, cache, now);
    }
}

/// Filters without a `drop` action, such as time-resolution reduction alone,
/// keep every series: for each sample given, the pass hands on a sample with
/// the same metric name and the same labels (only the value and timestamp
/// may come from the cache), and the HELP entries handed on are those of the
/// scrape for exactly the metrics it holds. Samples carry no label named
/// `__name__`, the name the series key reserves for the metric name.
pub proof fn lemma_no_drop_keeps_series(
    filters: Seq<LabelFilterView>,
    samples: Seq<SampleView>,
    docs: Seq<(Seq<char>, Seq<char>)>,
    cache: CacheView,
    now: u64,
)
    requires
        no_drop(filters),
        cache_consistent(cache),
        cache_without_name_labels(cache),
        forall|i: int| 0 <= i < samples.len() ==> !has_name_label(#[trigger] samples[i]),
    ensures
        ({
            let p = filter_pass(filters, samples, docs, cache, now);
            &&& p.samples.len() == samples.len()
            &&& forall|i: int|
                0 <= i < samples.len() ==> (#[trigger] p.samples[i]).metric == samples[i].metric
                    && p.samples[i].labels.to_multiset() == samples[i].labels.to_multiset()
                    && !has_name_label(p.samples[i])
            &&& forall|m: Seq<char>| has_metric(samples, m) ==> lookup_pair(p.docs, m) == lookup_pair(docs, m)
            &&& forall|m: Seq<char>| #[trigger] lookup_pair(p.docs, m) is Some ==> has_metric(samples, m)
                && lookup_pair(p.docs, m) == lookup_pair(docs, m)
            &&& cache_consistent(p.cache)
            &&& cache_without_name_labels(p.cache)
        }),
    decreases samples.len(),
{
    if samples.len() > 0 {
        let rest = samples.drop_last();
        assert forall|i: int| 0 <= i < rest.len() implies !has_name_label(#[trigger] rest[i]) by {
            assert(rest[i] == samples[i]);
        }
        lemma_no_drop_keeps_series(filters, rest, docs, cache, now);
        lemma_no_drop_removes_nothing(filters, rest, docs, cache, now);
        let prev = filter_pass(filters, rest, docs, cache, now);
        let s = samples.last();
        assert(!has_name_label(samples[samples.len() - 1]));
        lemma_verdict_no_drop(filters, s, prev.cache, now);
        lemma_verdict_cached_unnamed(filters, s, prev.cache, now);
        let v = verdict(filters, s, prev.cache, now);
        let p = filter_pass(filters, samples, docs, cache, now);
        let last = p.samples[samples.len() - 1];
        match v.cached {
            Some(c) => {
                assert(last == c);
                lemma_fingerprint_identifies_series(c, s);
            },
            None => {
                assert(last == s);
            },
        }
        assert forall|i: int|
            0 <= i < samples.len() implies (#[trigger] p.samples[i]).metric == samples[i].metric
            && p.samples[i].labels.to_multiset() == samples[i].labels.to_multiset()
            && !has_name_label(p.samples[i]) by {
            if i < rest.len() {
                assert(p.samples[i] == prev.samples[i]);
                assert(samples[i] == rest[i]);
            }
        }
        assert forall|k: Seq<(Seq<char>, Seq<char>)>| #[trigger] p.cache.contains_key(k) implies !has_name_label(
            p.cache[k].0,
        ) by {
            if k != fingerprint(s) {
                assert(prev.cache.contains_key(k));
            }
        }
        if lookup_pair(prev.docs, s.metric) is None && lookup_pair(docs, s.metric) is Some {
            let e = (s.metric, lookup_pair(docs, s.metric)->Some_0);
            assert(p.docs == prev.docs.push(e));
            assert forall|m: Seq<char>| #[trigger] lookup_pair(p.docs, m) is Some implies has_metric(
                samples,
                m,
            ) && lookup_pair(p.docs, m) == lookup_pair(docs, m) by {
                lemma_lookup_push(prev.docs, e, m);
                if m != s.metric {
                    let i = choose|i: int| 0 <= i < rest.len() && rest[i].metric == m;
                    assert(samples[i].metric == m);
                } else {
                    assert(samples[samples.len() - 1].metric == m);
                }
            }
            assert forall|m: Seq<char>| has_metric(samples, m) implies lookup_pair(p.docs, m)
                == lookup_pair(docs, m) by {
                lemma_lookup_push(prev.docs, e, m);
                if m != s.metric {
                    let i = choose|i: int| 0 <= i < samples.len() && samples[i].metric == m;
                    assert(rest[i].metric == m);
                }
            }
        } else {
            assert(p.docs == prev.docs);
            assert forall|m: Seq<char>| #[trigger] lookup_pair(p.docs, m) is Some implies has_metric(
                samples,
                m,
            ) && lookup_pair(p.docs, m) == lookup_pair(docs, m) by {
                let i = choose|i: int| 0 <= i < rest.len() && rest[i].metric == m;
                assert(samples[i].metric == m);
            }
            assert forall|m: Seq<char>| has_metric(samples, m) implies lookup_pair(p.docs, m)
                == lookup_pair(docs, m) by {
                if m != s.metric {
                    let i = choose|i: int| 0 <= i < samples.len() && samples[i].metric == m;
                    assert(rest[i].metric == m);
                }
            }
        }
    }
}

} // verus!
