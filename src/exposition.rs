//! The data model of a scrape: samples with their labels and typed values,
//! and the HELP text of each metric.
//!
//! Numbers are carried as the text the exposition writes for them: a count
//! in exponent notation (`2.5e1`), a bucket bound or a quantile in plain
//! decimal notation. The proxy never computes with them; it only copies
//! them, so a scrape read from a backend renders back without loss.

use vstd::prelude::*;

verus! {

/// The upper bound (`le`) of a histogram bucket.
#[derive(Debug, Clone, PartialEq)]
pub enum Bound {
    PosInf,
    NegInf,
    Finite(String),
}

/// One bucket of a histogram: the bound and the number of observations under it.
#[derive(Debug, Clone, PartialEq)]
pub struct HistogramCount {
    pub less_than: Bound,
    pub count: String,
}

/// One quantile of a summary and its value.
#[derive(Debug, Clone, PartialEq)]
pub struct SummaryCount {
    pub quantile: String,
    pub count: String,
}

/// The typed value of a sample.
#[derive(Debug, Clone, PartialEq)]
pub enum SampleValue {
    Untyped(String),
    Counter(String),
    Gauge(String),
    Histogram(Vec<HistogramCount>),
    Summary(Vec<SummaryCount>),
}

/// One observation of a series: metric name, labels, value and optional
/// timestamp (milliseconds since the epoch).
#[derive(Debug, Clone, PartialEq)]
pub struct Sample {
    pub metric: String,
    pub labels: Vec<(String, String)>,
    pub value: SampleValue,
    pub timestamp: Option<i64>,
}

/// The samples of one scrape, and the HELP text of each metric name.
#[derive(Debug, Clone, PartialEq)]
pub struct Scrape {
    pub samples: Vec<Sample>,
    pub docs: Vec<(String, String)>,
}

pub enum BoundView {
    PosInf,
    NegInf,
    Finite(Seq<char>),
}

pub struct HistogramCountView {
    pub less_than: BoundView,
    pub count: Seq<char>,
}

pub struct SummaryCountView {
    pub quantile: Seq<char>,
    pub count: Seq<char>,
}

pub enum ValueView {
    Untyped(Seq<char>),
    Counter(Seq<char>),
    Gauge(Seq<char>),
    Histogram(Seq<HistogramCountView>),
    Summary(Seq<SummaryCountView>),
}

pub struct SampleView {
    pub metric: Seq<char>,
    pub labels: Seq<(Seq<char>, Seq<char>)>,
    pub value: ValueView,
    pub timestamp: Option<i64>,
}

pub struct ScrapeView {
    pub samples: Seq<SampleView>,
    pub docs: Seq<(Seq<char>, Seq<char>)>,
}

impl View for Bound {
    type V = BoundView;

    open spec fn view(&self) -> BoundView {
        match self {
            Bound::PosInf => BoundView::PosInf,
            Bound::NegInf => BoundView::NegInf,
            Bound::Finite(t) => BoundView::Finite(t@),
        }
    }
}

impl View for HistogramCount {
    type V = HistogramCountView;

    open spec fn view(&self) -> HistogramCountView {
        HistogramCountView { less_than: self.less_than@, count: self.count@ }
    }
}

impl View for SummaryCount {
    type V = SummaryCountView;

    open spec fn view(&self) -> SummaryCountView {
        SummaryCountView { quantile: self.quantile@, count: self.count@ }
    }
}

impl View for SampleValue {
    type V = ValueView;

    open spec fn view(&self) -> ValueView {
        match self {
            SampleValue::Untyped(v) => ValueView::Untyped(v@),
            SampleValue::Counter(v) => ValueView::Counter(v@),
            SampleValue::Gauge(v) => ValueView::Gauge(v@),
            SampleValue::Histogram(b) => ValueView::Histogram(b@.map_values(|h: HistogramCount| h@)),
            SampleValue::Summary(q) => ValueView::Summary(q@.map_values(|c: SummaryCount| c@)),
        }
    }
}

impl View for Sample {
    type V = SampleView;

    open spec fn view(&self) -> SampleView {
        SampleView {
            metric: self.metric@,
            labels: self.labels.deep_view(),
            value: self.value@,
            timestamp: self.timestamp,
        }
    }
}

impl View for Scrape {
    type V = ScrapeView;

    open spec fn view(&self) -> ScrapeView {
        ScrapeView {
            samples: self.samples@.map_values(|s: Sample| s@),
            docs: self.docs.deep_view(),
        }
    }
}

/// A copy of a list of (name, value) pairs.
pub fn copy_pairs(v: &Vec<(String, String)>) -> (r: Vec<(String, String)>)
    ensures
        r.deep_view() == v.deep_view(),
{
    let mut r: Vec<(String, String)> = Vec::new();
    for i in 0..v.len()
        invariant
            r.deep_view() == v.deep_view().take(i as int),
    {
        let pair = (v[i].0.clone(), v[i].1.clone());
        let ghost prev = r.deep_view();
        r.push(pair);
        assert(r.deep_view() =~= prev.push(pair.deep_view()));
        assert(v.deep_view().take(i + 1) =~= v.deep_view().take(i as int).push(v[i as int].deep_view()));
    }
    assert(v.deep_view().take(v.len() as int) =~= v.deep_view());
    r
}

impl Bound {
    pub fn copy(&self) -> (r: Bound)
        ensures
            r@ == self@,
    {
        match self {
            Bound::PosInf => Bound::PosInf,
            Bound::NegInf => Bound::NegInf,
            Bound::Finite(t) => Bound::Finite(t.clone()),
        }
    }
}

impl SampleValue {
    pub fn copy(&self) -> (r: SampleValue)
        ensures
            r@ == self@,
    {
        match self {
            SampleValue::Untyped(v) => SampleValue::Untyped(v.clone()),
            SampleValue::Counter(v) => SampleValue::Counter(v.clone()),
            SampleValue::Gauge(v) => SampleValue::Gauge(v.clone()),
            SampleValue::Histogram(b) => {
                let mut r: Vec<HistogramCount> = Vec::new();
                for i in 0..b.len()
                    invariant
                        r@.map_values(|h: HistogramCount| h@) == b@.map_values(
                            |h: HistogramCount| h@,
                        ).take(i as int),
                {
                    let h = HistogramCount { less_than: b[i].less_than.copy(), count: b[i].count.clone() };
                    let ghost prev = r@.map_values(|h: HistogramCount| h@);
                    r.push(h);
                    assert(r@.map_values(|h: HistogramCount| h@) =~= prev.push(h@));
                    assert(r@.map_values(|h: HistogramCount| h@) =~= b@.map_values(
                        |h: HistogramCount| h@,
                    ).take(i + 1));
                }
                assert(b@.map_values(|h: HistogramCount| h@).take(b.len() as int) =~= b@.map_values(
                    |h: HistogramCount| h@,
                ));
                SampleValue::Histogram(r)
            },
            SampleValue::Summary(q) => {
                let mut r: Vec<SummaryCount> = Vec::new();
                for i in 0..q.len()
                    invariant
                        r@.map_values(|c: SummaryCount| c@) == q@.map_values(
                            |c: SummaryCount| c@,
                        ).take(i as int),
                {
                    let c = SummaryCount { quantile: q[i].quantile.clone(), count: q[i].count.clone() };
                    let ghost prev = r@.map_values(|c: SummaryCount| c@);
                    r.push(c);
                    assert(r@.map_values(|c: SummaryCount| c@) =~= prev.push(c@));
                    assert(r@.map_values(|c: SummaryCount| c@) =~= q@.map_values(
                        |c: SummaryCount| c@,
                    ).take(i + 1));
                }
                assert(q@.map_values(|c: SummaryCount| c@).take(q.len() as int) =~= q@.map_values(
                    |c: SummaryCount| c@,
                ));
                SampleValue::Summary(r)
            },
        }
    }
}

impl Sample {
    pub fn copy(&self) -> (r: Sample)
        ensures
            r@ == self@,
    {
        Sample {
            metric: self.metric.clone(),
            labels: copy_pairs(&self.labels),
            value: self.value.copy(),
            timestamp: self.timestamp,
        }
    }
}

} // verus!
