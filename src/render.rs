//! The exposition writer: a scrape back to Prometheus text.
//!
//! Metric names come out in ascending order, each with its HELP and TYPE
//! lines when the scrape documents it, then the lines of its samples in the
//! order the scrape holds them. Labels are sorted by name.

use crate::exposition::{
    copy_pairs,
    Bound, BoundView, HistogramCountView, Sample, SampleValue, SampleView, Scrape, ScrapeView,
    SummaryCountView, ValueView,
};
use crate::text::{
    find_pair, join, join_texts, lookup_pair, label_order, lemma_sorted_pairs_unique, lemma_sorted_texts_unique,
    opt_text, sort_label_pairs, sort_texts, terminate_lines, terminated, text_of, text_order,
};
use vstd::prelude::*;

verus! {

/// `name="value"`.
pub open spec fn label_item(p: (Seq<char>, Seq<char>)) -> Seq<char> {
    p.0 + "=\""@ + p.1 + "\""@
}

/// The labels of a line: the sample's labels and the synthesized one, if any.
pub open spec fn with_extra(
    labels: Seq<(Seq<char>, Seq<char>)>,
    extra: Option<(Seq<char>, Seq<char>)>,
) -> Seq<(Seq<char>, Seq<char>)> {
    match extra {
        Some(p) => labels.push(p),
        None => labels,
    }
}

/// The rendered label items: all the labels of the line, sorted by name.
pub open spec fn label_items(
    labels: Seq<(Seq<char>, Seq<char>)>,
    extra: Option<(Seq<char>, Seq<char>)>,
) -> Seq<Seq<char>> {
    with_extra(labels, extra).sort_by(label_order()).map_values(
        |p: (Seq<char>, Seq<char>)| label_item(p),
    )
}

/// The label block of a line: `{a="1",b="2"}`, or nothing at all when there
/// is no label.
pub open spec fn label_block(
    labels: Seq<(Seq<char>, Seq<char>)>,
    extra: Option<(Seq<char>, Seq<char>)>,
) -> Seq<char> {
    let items = label_items(labels, extra);
    if items.len() == 0 {
        Seq::empty()
    } else {
        "{"@ + join(items, ","@) + "}"@
    }
}

/// One exposition line: `metric{labels} value`.
pub open spec fn sample_line(
    metric: Seq<char>,
    labels: Seq<(Seq<char>, Seq<char>)>,
    extra: Option<(Seq<char>, Seq<char>)>,
    value: Seq<char>,
) -> Seq<char> {
    metric + label_block(labels, extra) + " "@ + value
}

/// The text of a bucket bound: `+Inf`, `-Inf` or the number.
pub open spec fn bound_text(b: BoundView) -> Seq<char> {
    match b {
        BoundView::PosInf => "+Inf"@,
        BoundView::NegInf => "-Inf"@,
        BoundView::Finite(t) => t,
    }
}

/// The synthesized `le` label of a bucket.
pub open spec fn le_label(b: BoundView) -> (Seq<char>, Seq<char>) {
    ("le"@, bound_text(b))
}

/// The synthesized `quantile` label of a summary entry.
pub open spec fn quantile_label(q: Seq<char>) -> (Seq<char>, Seq<char>) {
    ("quantile"@, q)
}

/// The lines of one sample: one for a scalar, one per bucket of a histogram,
/// one per quantile of a summary.
pub open spec fn sample_lines(s: SampleView) -> Seq<Seq<char>> {
    match s.value {
        ValueView::Untyped(v) => seq![sample_line(s.metric, s.labels, None, v)],
        ValueView::Counter(v) => seq![sample_line(s.metric, s.labels, None, v)],
        ValueView::Gauge(v) => seq![sample_line(s.metric, s.labels, None, v)],
        ValueView::Histogram(bs) => bs.map_values(
            |b: HistogramCountView| sample_line(s.metric, s.labels, Some(le_label(b.less_than)), b.count),
        ),
        ValueView::Summary(qs) => qs.map_values(
            |q: SummaryCountView| sample_line(s.metric, s.labels, Some(quantile_label(q.quantile)), q.count),
        ),
    }
}

/// The TYPE word of a value.
pub open spec fn kind_name(v: ValueView) -> Seq<char> {
    match v {
        ValueView::Untyped(_) => "untyped"@,
        ValueView::Counter(_) => "counter"@,
        ValueView::Gauge(_) => "gauge"@,
        ValueView::Histogram(_) => "histogram"@,
        ValueView::Summary(_) => "summary"@,
    }
}

/// The TYPE word of the first sample named `name`.
pub open spec fn first_kind(samples: Seq<SampleView>, name: Seq<char>) -> Option<Seq<char>>
    decreases samples.len(),
{
    if samples.len() == 0 {
        None
    } else {
        match first_kind(samples.drop_last(), name) {
            Some(k) => Some(k),
            None => if samples.last().metric == name {
                Some(kind_name(samples.last().value))
            } else {
                None
            },
        }
    }
}

/// The lines of the samples named `name`, in the order they come.
pub open spec fn metric_lines(samples: Seq<SampleView>, name: Seq<char>) -> Seq<Seq<char>>
    decreases samples.len(),
{
    if samples.len() == 0 {
        Seq::empty()
    } else {
        metric_lines(samples.drop_last(), name) + if samples.last().metric == name {
            sample_lines(samples.last())
        } else {
            Seq::empty()
        }
    }
}

/// The metric names of `samples`, each once, in order of first appearance.
pub open spec fn distinct_metrics(samples: Seq<SampleView>) -> Seq<Seq<char>>
    decreases samples.len(),
{
    if samples.len() == 0 {
        Seq::empty()
    } else {
        let d = distinct_metrics(samples.drop_last());
        if d.contains(samples.last().metric) {
            d
        } else {
            d.push(samples.last().metric)
        }
    }
}

/// HELP and TYPE lines of `name`, when the scrape documents it.
pub open spec fn group_header(s: ScrapeView, name: Seq<char>) -> Seq<Seq<char>> {
    match (lookup_pair(s.docs, name), first_kind(s.samples, name)) {
        (Some(h), Some(k)) => seq!["# HELP "@ + name + " "@ + h, "# TYPE "@ + name + " "@ + k],
        _ => Seq::empty(),
    }
}

/// All the lines of metric `name`.
pub open spec fn group_lines(s: ScrapeView, name: Seq<char>) -> Seq<Seq<char>> {
    group_header(s, name) + metric_lines(s.samples, name)
}

/// The lines of the metrics `names`, one group after another.
pub open spec fn groups_lines(s: ScrapeView, names: Seq<Seq<char>>) -> Seq<Seq<char>>
    decreases names.len(),
{
    if names.len() == 0 {
        Seq::empty()
    } else {
        groups_lines(s, names.drop_last()) + group_lines(s, names.last())
    }
}

/// The metric names of a scrape in ascending order.
pub open spec fn metric_order(s: ScrapeView) -> Seq<Seq<char>> {
    distinct_metrics(s.samples).sort_by(text_order())
}

/// Every line of the exposition of `s`.
pub open spec fn exposition_lines(s: ScrapeView) -> Seq<Seq<char>> {
    groups_lines(s, metric_order(s))
}

/// The exposition text of `s`: its lines, each ending in a newline; a lone
/// newline for a scrape without samples.
pub open spec fn render(s: ScrapeView) -> Seq<char> {
    let lines = exposition_lines(s);
    if lines.len() == 0 {
        "\n"@
    } else {
        terminated(lines)
    }
}

/// A histogram bucket whose bound is +∞ renders with `le="+Inf"`.
pub proof fn lemma_infinite_bound_renders_inf(s: SampleView, i: int)
    requires
        s.value matches ValueView::Histogram(bs) && 0 <= i < bs.len() && bs[i].less_than
            == BoundView::PosInf,
    ensures
        ({
            let bs = s.value->Histogram_0;
            sample_lines(s)[i] == s.metric + label_block(s.labels, Some(("le"@, "+Inf"@))) + " "@
                + bs[i].count
        }),
        label_item(("le"@, "+Inf"@)) == "le=\"+Inf\""@,
{
    reveal_strlit("le");
    reveal_strlit("=\"");
    reveal_strlit("+Inf");
    reveal_strlit("\"");
    reveal_strlit("le=\"+Inf\"");
    assert(label_item(("le"@, "+Inf"@)) =~= "le=\"+Inf\""@);
}

/// A sample without labels renders without a label block.
pub proof fn lemma_no_labels_no_block(s: SampleView)
    requires
        s.labels.len() == 0,
        !(s.value is Histogram || s.value is Summary),
    ensures
        sample_lines(s).len() == 1,
        sample_lines(s)[0] == s.metric + " "@ + match s.value {
            ValueView::Untyped(v) => v,
            ValueView::Counter(v) => v,
            ValueView::Gauge(v) => v,
            _ => Seq::empty(),
        },
{
    broadcast use vstd::seq_lib::group_to_multiset_ensures;

    crate::text::lemma_label_order_total();
    s.labels.lemma_sort_by_ensures(label_order());
    assert(s.labels.sort_by(label_order()).to_multiset().len() == 0);
    assert(s.labels.sort_by(label_order()).len() == 0);
    assert(label_items(s.labels, None) =~= Seq::<Seq<char>>::empty());
}

/// The label block for `labels` and an optional synthesized label.
pub fn render_labels(labels: &Vec<(String, String)>, extra: Option<(String, String)>) -> (r: String)
    ensures
        r@ == label_block(labels.deep_view(), extra.deep_view()),
{
    let ghost all = with_extra(labels.deep_view(), extra.deep_view());
    let mut pairs = copy_pairs(labels);
    match extra {
        Some(p) => {
            let ghost prev = pairs.deep_view();
            pairs.push(p);
            assert(pairs.deep_view() =~= prev.push(p.deep_view()));
        },
        None => {},
    }
    assert(pairs.deep_view() == all);
    let sorted = sort_label_pairs(pairs);
    proof {
        lemma_sorted_pairs_unique(all, sorted.deep_view());
    }
    let ghost want = label_items(labels.deep_view(), extra.deep_view());
    let ghost ps = sorted.deep_view();
    let mut items: Vec<String> = Vec::new();
    for i in 0..sorted.len()
        invariant
            ps == sorted.deep_view(),
            ps == all.sort_by(label_order()),
            items.deep_view() == ps.take(i as int).map_values(
                |p: (Seq<char>, Seq<char>)| label_item(p),
            ),
    {
        let mut item = sorted[i].0.clone();
        item.append("=\"");
        item.append(sorted[i].1.as_str());
        item.append("\"");
        let ghost prev = items.deep_view();
        items.push(item);
        assert(items.deep_view() =~= prev.push(item@));
        assert(ps.take(i + 1).map_values(|p: (Seq<char>, Seq<char>)| label_item(p)) =~= ps.take(
            i as int,
        ).map_values(|p: (Seq<char>, Seq<char>)| label_item(p)).push(label_item(ps[i as int])));
    }
    assert(ps.take(sorted.len() as int) =~= ps);
    assert(items.deep_view() =~= want);
    if items.len() == 0 {
        String::new()
    } else {
        let mut out = text_of("{");
        let inner = join_texts(&items, ",");
        out.append(inner.as_str());
        out.append("}");
        out
    }
}

/// One exposition line.
fn line_text(
    metric: &String,
    labels: &Vec<(String, String)>,
    extra: Option<(String, String)>,
    value: &String,
) -> (r: String)
    ensures
        r@ == sample_line(metric@, labels.deep_view(), extra.deep_view(), value@),
{
    let mut out = metric.clone();
    let block = render_labels(labels, extra);
    out.append(block.as_str());
    out.append(" ");
    out.append(value.as_str());
    out
}

/// The text of a bucket bound.
fn bound_string(b: &Bound) -> (r: String)
    ensures
        r@ == bound_text(b@),
{
    match b {
        Bound::PosInf => text_of("+Inf"),
        Bound::NegInf => text_of("-Inf"),
        Bound::Finite(t) => t.clone(),
    }
}

/// The lines of one sample.
pub fn render_sample(sample: &Sample) -> (r: Vec<String>)
    ensures
        r.deep_view() == sample_lines(sample@),
{
    let ghost sv = sample@;
    match &sample.value {
        SampleValue::Untyped(v) => {
            let line = line_text(&sample.metric, &sample.labels, None, v);
            let r = vec![line];
            assert(r.deep_view() =~= sample_lines(sv));
            r
        },
        SampleValue::Counter(v) => {
            let line = line_text(&sample.metric, &sample.labels, None, v);
            let r = vec![line];
            assert(r.deep_view() =~= sample_lines(sv));
            r
        },
        SampleValue::Gauge(v) => {
            let line = line_text(&sample.metric, &sample.labels, None, v);
            let r = vec![line];
            assert(r.deep_view() =~= sample_lines(sv));
            r
        },
        SampleValue::Histogram(bs) => {
            let ghost want = sample_lines(sv);
            let mut r: Vec<String> = Vec::new();
            for i in 0..bs.len()
                invariant
                    sv == sample@,
                    sample.value == SampleValue::Histogram(*bs),
                    want == sample_lines(sv),
                    want.len() == bs.len(),
                    r.deep_view() == want.take(i as int),
            {
                let extra = (text_of("le"), bound_string(&bs[i].less_than));
                let line = line_text(&sample.metric, &sample.labels, Some(extra), &bs[i].count);
                let ghost prev = r.deep_view();
                r.push(line);
                assert(r.deep_view() =~= prev.push(line@));
                assert(want[i as int] == line@);
                assert(want.take(i + 1) =~= want.take(i as int).push(want[i as int]));
            }
            assert(want.take(bs.len() as int) =~= want);
            r
        },
        SampleValue::Summary(qs) => {
            let ghost want = sample_lines(sv);
            let mut r: Vec<String> = Vec::new();
            for i in 0..qs.len()
                invariant
                    sv == sample@,
                    sample.value == SampleValue::Summary(*qs),
                    want == sample_lines(sv),
                    want.len() == qs.len(),
                    r.deep_view() == want.take(i as int),
            {
                let extra = (text_of("quantile"), qs[i].quantile.clone());
                let line = line_text(&sample.metric, &sample.labels, Some(extra), &qs[i].count);
                let ghost prev = r.deep_view();
                r.push(line);
                assert(r.deep_view() =~= prev.push(line@));
                assert(want[i as int] == line@);
                assert(want.take(i + 1) =~= want.take(i as int).push(want[i as int]));
            }
            assert(want.take(qs.len() as int) =~= want);
            r
        },
    }
}

/// Whether `v` holds `s`.
pub fn contains_text(v: &Vec<String>, s: &String) -> (r: bool)
    ensures
        r == v.deep_view().contains(s@),
{
    for i in 0..v.len()
        invariant
            forall|j: int| 0 <= j < i ==> v.deep_view()[j] != s@,
    {
        if v[i] == *s {
            assert(v.deep_view()[i as int] == s@);
            return true;
        }
    }
    false
}

/// The metric names of `samples`, each once, in order of first appearance.
fn distinct_metric_names(samples: &Vec<Sample>) -> (r: Vec<String>)
    ensures
        r.deep_view() == distinct_metrics(samples@.map_values(|x: Sample| x@)),
{
    let ghost ss = samples@.map_values(|x: Sample| x@);
    let mut r: Vec<String> = Vec::new();
    for i in 0..samples.len()
        invariant
            ss == samples@.map_values(|x: Sample| x@),
            r.deep_view() == distinct_metrics(ss.take(i as int)),
    {
        assert(ss.take(i + 1).drop_last() =~= ss.take(i as int));
        if !contains_text(&r, &samples[i].metric) {
            let name = samples[i].metric.clone();
            let ghost prev = r.deep_view();
            r.push(name);
            assert(r.deep_view() =~= prev.push(name@));
        }
    }
    assert(ss.take(samples.len() as int) =~= ss);
    r
}

/// The TYPE word of a value.
fn kind_text(v: &SampleValue) -> (r: String)
    ensures
        r@ == kind_name(v@),
{
    match v {
        SampleValue::Untyped(_) => text_of("untyped"),
        SampleValue::Counter(_) => text_of("counter"),
        SampleValue::Gauge(_) => text_of("gauge"),
        SampleValue::Histogram(_) => text_of("histogram"),
        SampleValue::Summary(_) => text_of("summary"),
    }
}

/// All the lines of metric `name` in `scrape`.
fn render_group(scrape: &Scrape, name: &String) -> (r: Vec<String>)
    ensures
        r.deep_view() == group_lines(scrape@, name@),
{
    let ghost ss = scrape@.samples;
    let mut body: Vec<String> = Vec::new();
    let mut kind: Option<String> = None;
    for i in 0..scrape.samples.len()
        invariant
            ss == scrape@.samples,
            ss.len() == scrape.samples.len(),
            body.deep_view() == metric_lines(ss.take(i as int), name@),
            opt_text(kind) == first_kind(ss.take(i as int), name@),
    {
        assert(ss.take(i + 1).drop_last() =~= ss.take(i as int));
        assert(ss.take(i + 1).last() == scrape.samples[i as int]@);
        if scrape.samples[i].metric == *name {
            if kind.is_none() {
                kind = Some(kind_text(&scrape.samples[i].value));
            }
            let mut lines = render_sample(&scrape.samples[i]);
            let ghost prev = body.deep_view();
            let ghost added = lines.deep_view();
            body.append(&mut lines);
            assert(body.deep_view() =~= prev + added);
        } else {
            assert(metric_lines(ss.take(i + 1), name@) =~= metric_lines(ss.take(i as int), name@));
        }
    }
    assert(ss.take(scrape.samples.len() as int) =~= ss);
    let doc = find_pair(&scrape.docs, name);
    let mut out: Vec<String> = Vec::new();
    match (doc, kind) {
        (Some(h), Some(k)) => {
            let mut help = text_of("# HELP ");
            help.append(name.as_str());
            help.append(" ");
            help.append(h.as_str());
            let mut kind_line = text_of("# TYPE ");
            kind_line.append(name.as_str());
            kind_line.append(" ");
            kind_line.append(k.as_str());
            out.push(help);
            out.push(kind_line);
            assert(out.deep_view() =~= group_header(scrape@, name@));
        },
        _ => {
            assert(out.deep_view() =~= group_header(scrape@, name@));
        },
    }
    let ghost head = out.deep_view();
    let ghost tail = body.deep_view();
    out.append(&mut body);
    assert(out.deep_view() =~= head + tail);
    out
}

/// The exposition text of a scrape.
pub fn render_scrape_data(scrape: &Scrape) -> (r: String)
    ensures
        r@ == render(scrape@),
{
    let distinct = distinct_metric_names(&scrape.samples);
    let names = sort_texts(distinct);
    proof {
        lemma_sorted_texts_unique(distinct.deep_view(), names.deep_view());
    }
    let ghost ns = names.deep_view();
    let mut lines: Vec<String> = Vec::new();
    for i in 0..names.len()
        invariant
            ns == names.deep_view(),
            ns == metric_order(scrape@),
            lines.deep_view() == groups_lines(scrape@, ns.take(i as int)),
    {
        assert(ns.take(i + 1).drop_last() =~= ns.take(i as int));
        let mut group = render_group(scrape, &names[i]);
        let ghost prev = lines.deep_view();
        let ghost added = group.deep_view();
        lines.append(&mut group);
        assert(lines.deep_view() =~= prev + added);
    }
    assert(ns.take(names.len() as int) =~= ns);
    terminate_lines(&lines)
}

} // verus!
