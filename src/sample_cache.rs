//! The sample cache behind time-resolution reduction: for each series, the
//! sample last passed on and when, so that the same value can be passed on
//! again until it is older than the resolution asked for.

use crate::exposition::{Sample, SampleView};
use crate::text::{label_order, lemma_sorted_pairs_unique, sort_label_pairs, text_of};
use std::collections::HashMap;
use crate::assoc::{assoc_map, keys_distinct, lemma_assoc_has, lemma_assoc_lacks, lemma_assoc_push, lemma_assoc_update};
use vstd::prelude::*;

verus! {

/// The canonical key of a series: its label pairs with the metric name as
/// the label `__name__`, sorted.
pub open spec fn fingerprint(s: SampleView) -> Seq<(Seq<char>, Seq<char>)> {
    s.labels.insert(0, ("__name__"@, s.metric)).sort_by(label_order())
}

/// What the cache holds: for each fingerprint, the sample and the instant
/// (nanoseconds on a monotonic clock) at which it was stored.
pub type CacheView = Map<Seq<(Seq<char>, Seq<char>)>, (SampleView, u64)>;

/// The stored sample for the series of `s`, if it was stored after
/// `now - staleness`; nothing when that instant would precede the clock's origin.
pub open spec fn cache_get(cache: CacheView, s: SampleView, now: u64, staleness: u64) -> Option<
    SampleView,
> {
    let key = fingerprint(s);
    if cache.contains_key(key) && staleness <= now && cache[key].1 > now - staleness {
        Some(cache[key].0)
    } else {
        None
    }
}

/// The cache after storing `s` at `now`.
pub open spec fn cache_put(cache: CacheView, s: SampleView, now: u64) -> CacheView {
    cache.insert(fingerprint(s), (s, now))
}

/// Whether `s` has a label named `__name__`, the name the fingerprint
/// reserves for the metric name.
pub open spec fn has_name_label(s: SampleView) -> bool {
    exists|i: int| 0 <= i < s.labels.len() && s.labels[i].0 == "__name__"@
}

/// Two samples have the same fingerprint exactly when they have the same
/// metric name and the same label pairs, whatever the order in which the
/// labels come.
pub proof fn lemma_fingerprint_identifies_series(x: SampleView, y: SampleView)
    requires
        !has_name_label(x),
        !has_name_label(y),
    ensures
        fingerprint(x) == fingerprint(y) <==> (x.metric == y.metric && x.labels.to_multiset()
            == y.labels.to_multiset()),
{
    broadcast use vstd::seq_lib::group_to_multiset_ensures;
    broadcast use vstd::multiset::group_multiset_axioms;

    let nx = ("__name__"@, x.metric);
    let ny = ("__name__"@, y.metric);
    let a = x.labels.insert(0, nx);
    let b = y.labels.insert(0, ny);
    crate::text::lemma_label_order_total();
    a.lemma_sort_by_ensures(label_order());
    b.lemma_sort_by_ensures(label_order());
    assert(a.to_multiset() == x.labels.to_multiset().insert(nx));
    assert(b.to_multiset() == y.labels.to_multiset().insert(ny));
    if x.metric == y.metric && x.labels.to_multiset() == y.labels.to_multiset() {
        vstd::seq_lib::lemma_sorted_unique(a.sort_by(label_order()), b.sort_by(label_order()), label_order());
    }
    if fingerprint(x) == fingerprint(y) {
        assert(a.to_multiset() == b.to_multiset());
        assert(b.to_multiset().contains(nx));
        if nx != ny {
            assert(y.labels.to_multiset().contains(nx));
            assert(y.labels.contains(nx));
            let i = choose|i: int| 0 <= i < y.labels.len() && y.labels[i] == nx;
            assert(y.labels[i].0 == "__name__"@);
        }
        assert(x.labels.to_multiset() =~= a.to_multiset().remove(nx));
        assert(y.labels.to_multiset() =~= b.to_multiset().remove(ny));
    }
}

/// A stored sample exactly `staleness` old is stale: only one stored after
/// `now - staleness` is handed back.
pub proof fn lemma_entry_at_staleness_is_stale(
    cache: CacheView,
    s: SampleView,
    now: u64,
    staleness: u64,
)
    requires
        cache.contains_key(fingerprint(s)),
        staleness <= now,
        cache[fingerprint(s)].1 == now - staleness,
    ensures
        cache_get(cache, s, now, staleness) is None,
{
}

/// Whether every entry of the cache is stored under its sample's fingerprint.
pub open spec fn cache_consistent(cache: CacheView) -> bool {
    forall|k: Seq<(Seq<char>, Seq<char>)>| #[trigger] cache.contains_key(k) ==> fingerprint(cache[k].0) == k
}

/// The fingerprint of a sample, as a value.
pub struct OrderedLabelSet {
    pub pairs: Vec<(String, String)>,
}

impl View for OrderedLabelSet {
    type V = Seq<(Seq<char>, Seq<char>)>;

    open spec fn view(&self) -> Seq<(Seq<char>, Seq<char>)> {
        self.pairs.deep_view()
    }
}

impl OrderedLabelSet {
    /// The fingerprint of `x`.
    pub fn from(x: &Sample) -> (r: OrderedLabelSet)
        ensures
            r@ == fingerprint(x@),
    {
        let mut labelset: Vec<(String, String)> = Vec::new();
        labelset.push((text_of("__name__"), x.metric.clone()));
        for i in 0..x.labels.len()
            invariant
                labelset.deep_view() == x@.labels.take(i as int).insert(0, ("__name__"@, x@.metric)),
        {
            let pair = (x.labels[i].0.clone(), x.labels[i].1.clone());
            let ghost prev = labelset.deep_view();
            labelset.push(pair);
            assert(labelset.deep_view() =~= prev.push(pair.deep_view()));
            assert(x@.labels.take(i + 1).insert(0, ("__name__"@, x@.metric)) =~= x@.labels.take(
                i as int,
            ).insert(0, ("__name__"@, x@.metric)).push(x@.labels[i as int]));
        }
        assert(x@.labels.take(x.labels.len() as int) =~= x@.labels);
        let ghost unsorted = labelset.deep_view();
        let pairs = sort_label_pairs(labelset);
        proof {
            lemma_sorted_pairs_unique(unsorted, pairs.deep_view());
        }
        OrderedLabelSet { pairs }
    }

    /// Whether two fingerprints are the same.
    pub fn same_as(&self, other: &OrderedLabelSet) -> (r: bool)
        ensures
            r == (self@ == other@),
    {
        if self.pairs.len() != other.pairs.len() {
            assert(self@.len() != other@.len());
            return false;
        }
        for i in 0..self.pairs.len()
            invariant
                self.pairs.len() == other.pairs.len(),
                forall|j: int| 0 <= j < i ==> self@[j] == other@[j],
        {
            if self.pairs[i].0 != other.pairs[i].0 || self.pairs[i].1 != other.pairs[i].1 {
                assert(self@[i as int] != other@[i as int]);
                return false;
            }
        }
        assert(self@ =~= other@);
        true
    }
}

struct SampleCacheEntry {
    key: OrderedLabelSet,
    sample: Sample,
    saved_at: u64,
}

/// An entry as a key-value pair.
spec fn entry_pair(e: SampleCacheEntry) -> (Seq<(Seq<char>, Seq<char>)>, (SampleView, u64)) {
    (e.key@, (e.sample@, e.saved_at))
}

spec fn entry_pairs(es: Seq<SampleCacheEntry>) -> Seq<(Seq<(Seq<char>, Seq<char>)>, (SampleView, u64))> {
    es.map_values(|e: SampleCacheEntry| entry_pair(e))
}

/// The map a list of entries stands for.
spec fn entries_map(es: Seq<SampleCacheEntry>) -> CacheView {
    assoc_map(entry_pairs(es))
}

spec fn keys_unique(es: Seq<SampleCacheEntry>) -> bool {
    forall|i: int, j: int| 0 <= i < j < es.len() ==> es[i].key@ != es[j].key@
}

proof fn lemma_keys_distinct(es: Seq<SampleCacheEntry>)
    requires
        keys_unique(es),
    ensures
        keys_distinct(entry_pairs(es)),
{
    assert forall|i: int, j: int| 0 <= i < j < entry_pairs(es).len() implies entry_pairs(es)[i].0
        != entry_pairs(es)[j].0 by {
        assert(es[i].key@ != es[j].key@);
    }
}

proof fn lemma_entries_map_has(es: Seq<SampleCacheEntry>, i: int)
    requires
        keys_unique(es),
        0 <= i < es.len(),
    ensures
        entries_map(es).contains_key(es[i].key@),
        entries_map(es)[es[i].key@] == (es[i].sample@, es[i].saved_at),
{
    lemma_keys_distinct(es);
    lemma_assoc_has(entry_pairs(es), i);
}

proof fn lemma_entries_map_lacks(es: Seq<SampleCacheEntry>, k: Seq<(Seq<char>, Seq<char>)>)
    requires
        forall|i: int| 0 <= i < es.len() ==> es[i].key@ != k,
    ensures
        !entries_map(es).contains_key(k),
{
    assert forall|i: int| 0 <= i < entry_pairs(es).len() implies entry_pairs(es)[i].0 != k by {
        assert(es[i].key@ != k);
    }
    lemma_assoc_lacks(entry_pairs(es), k);
}

proof fn lemma_entries_map_update(es: Seq<SampleCacheEntry>, i: int, e: SampleCacheEntry)
    requires
        keys_unique(es),
        0 <= i < es.len(),
        e.key@ == es[i].key@,
    ensures
        entries_map(es.update(i, e)) == entries_map(es).insert(e.key@, (e.sample@, e.saved_at)),
{
    lemma_keys_distinct(es);
    assert(entry_pairs(es.update(i, e)) =~= entry_pairs(es).update(i, entry_pair(e)));
    lemma_assoc_update(entry_pairs(es), i, entry_pair(e));
}

proof fn lemma_entries_map_push(es: Seq<SampleCacheEntry>, e: SampleCacheEntry)
    ensures
        entries_map(es.push(e)) == entries_map(es).insert(e.key@, (e.sample@, e.saved_at)),
{
    assert(entry_pairs(es.push(e)) =~= entry_pairs(es).push(entry_pair(e)));
    lemma_assoc_push(entry_pairs(es), entry_pair(e));
}

/// The modulus of the bucket hash.
const BUCKET_MODULUS: u64 = 1_000_003;

/// Characters never hash to this value, so it separates names from values.
const BUCKET_SEPARATOR: u64 = 0x110000;

/// One step of the bucket hash.
pub open spec fn hash_step(h: u64, x: u64) -> u64 {
    ((h as int * 31 + x as int) % 1_000_003) as u64
}

/// The bucket hash of `h` followed by the characters of `t`.
pub open spec fn hash_text(h: u64, t: Seq<char>) -> u64
    decreases t.len(),
{
    if t.len() == 0 {
        h
    } else {
        hash_step(hash_text(h, t.drop_last()), (t.last() as u32) as u64)
    }
}

/// The bucket a fingerprint is stored in.
pub open spec fn bucket_of(fp: Seq<(Seq<char>, Seq<char>)>) -> u64
    decreases fp.len(),
{
    if fp.len() == 0 {
        0
    } else {
        let h = bucket_of(fp.drop_last());
        hash_step(
            hash_text(hash_step(hash_text(h, fp.last().0), 0x110000), fp.last().1),
            0x110000,
        )
    }
}

fn hash_string(h: u64, t: &String) -> (r: u64)
    requires
        h < 1_000_003,
    ensures
        r == hash_text(h, t@),
        r < 1_000_003,
{
    let cs = crate::text::chars_of(t.as_str());
    let mut acc = h;
    for i in 0..cs.len()
        invariant
            cs@ == t@,
            acc < 1_000_003,
            acc == hash_text(h, cs@.take(i as int)),
    {
        assert(cs@.take(i + 1).drop_last() =~= cs@.take(i as int));
        let c = cs[i];
        proof {
            vstd::utf8::char_is_scalar(c);
        }
        let x = (c as u32) as u64;
        assert(x <= 0x10FFFF);
        acc = (acc * 31 + x) % BUCKET_MODULUS;
    }
    assert(cs@.take(cs.len() as int) =~= cs@);
    acc
}

impl OrderedLabelSet {
    /// The bucket this fingerprint is stored in.
    pub fn bucket(&self) -> (r: u64)
        ensures
            r == bucket_of(self@),
    {
        let ghost fp = self@;
        let mut h: u64 = 0;
        for i in 0..self.pairs.len()
            invariant
                fp == self@,
                h < 1_000_003,
                h == bucket_of(fp.take(i as int)),
        {
            assert(fp.take(i + 1).drop_last() =~= fp.take(i as int));
            let a = hash_string(h, &self.pairs[i].0);
            let b = hash_string((a * 31 + BUCKET_SEPARATOR) % BUCKET_MODULUS, &self.pairs[i].1);
            h = (b * 31 + BUCKET_SEPARATOR) % BUCKET_MODULUS;
        }
        assert(fp.take(self.pairs.len() as int) =~= fp);
        h
    }
}

/// The samples stored per series, with the instant each was stored, in
/// buckets by the hash of their fingerprints.
pub struct SampleCacheStore {
    buckets: HashMap<u64, Vec<SampleCacheEntry>>,
}

impl View for SampleCacheStore {
    type V = CacheView;

    closed spec fn view(&self) -> CacheView {
        Map::new(
            |k: Seq<(Seq<char>, Seq<char>)>|
                self.buckets@.contains_key(bucket_of(k)) && entries_map(
                    self.buckets@[bucket_of(k)]@,
                ).contains_key(k),
            |k: Seq<(Seq<char>, Seq<char>)>| entries_map(self.buckets@[bucket_of(k)]@)[k],
        )
    }
}

/// A bucket holds one entry per series, each hashing to the bucket.
spec fn bucket_wf(es: Seq<SampleCacheEntry>, h: u64) -> bool {
    &&& keys_unique(es)
    &&& forall|i: int| 0 <= i < es.len() ==> bucket_of(#[trigger] es[i].key@) == h
    &&& forall|i: int| 0 <= i < es.len() ==> (#[trigger] es[i]).key@ == fingerprint(es[i].sample@)
}

proof fn lemma_entries_map_consistent(es: Seq<SampleCacheEntry>)
    requires
        keys_unique(es),
        forall|i: int| 0 <= i < es.len() ==> (#[trigger] es[i]).key@ == fingerprint(es[i].sample@),
    ensures
        cache_consistent(entries_map(es)),
{
    assert forall|k: Seq<(Seq<char>, Seq<char>)>| #[trigger] entries_map(es).contains_key(k) implies fingerprint(
        entries_map(es)[k].0,
    ) == k by {
        if forall|i: int| 0 <= i < es.len() ==> es[i].key@ != k {
            lemma_entries_map_lacks(es, k);
        } else {
            let i = choose|i: int| 0 <= i < es.len() && es[i].key@ == k;
            lemma_entries_map_has(es, i);
            assert(es[i].key@ == fingerprint(es[i].sample@));
        }
    }
}

/// The position of the entry for `key` in `bucket`, if there is one.
fn position(bucket: &Vec<SampleCacheEntry>, key: &OrderedLabelSet) -> (r: Option<usize>)
    ensures
        match r {
            Some(i) => i < bucket@.len() && bucket@[i as int].key@ == key@,
            None => forall|i: int| 0 <= i < bucket@.len() ==> bucket@[i].key@ != key@,
        },
{
    for i in 0..bucket.len()
        invariant
            forall|j: int| 0 <= j < i ==> bucket@[j].key@ != key@,
    {
        if bucket[i].key.same_as(key) {
            return Some(i);
        }
    }
    None
}

/// Stores `entry` in `bucket`, replacing the entry of the same series.
fn store_in(bucket: &mut Vec<SampleCacheEntry>, entry: SampleCacheEntry, Ghost(h): Ghost<u64>)
    requires
        bucket_wf(old(bucket)@, h),
        bucket_of(entry.key@) == h,
        entry.key@ == fingerprint(entry.sample@),
    ensures
        bucket_wf(final(bucket)@, h),
        entries_map(final(bucket)@) == entries_map(old(bucket)@).insert(
            entry.key@,
            (entry.sample@, entry.saved_at),
        ),
{
    match position(bucket, &entry.key) {
        Some(i) => {
            proof {
                lemma_entries_map_update(bucket@, i as int, entry);
            }
            let ghost before = bucket@;
            bucket.set(i, entry);
            proof {
                assert forall|a: int| 0 <= a < bucket@.len() implies bucket_of(
                    #[trigger] bucket@[a].key@,
                ) == h && bucket@[a].key@ == fingerprint(bucket@[a].sample@) by {
                    if a != i {
                        assert(bucket@[a] == before[a]);
                    }
                }
                assert forall|a: int, b: int|
                    0 <= a < b < bucket@.len() implies bucket@[a].key@ != bucket@[b].key@ by {
                    if a != i {
                        assert(bucket@[a] == before[a]);
                    }
                    if b != i {
                        assert(bucket@[b] == before[b]);
                    }
                }
            }
        },
        None => {
            let ghost before = bucket@;
            bucket.push(entry);
            proof {
                assert(bucket@ =~= before.push(entry));
                lemma_entries_map_push(before, entry);
                assert forall|a: int| 0 <= a < bucket@.len() implies bucket_of(
                    #[trigger] bucket@[a].key@,
                ) == h && bucket@[a].key@ == fingerprint(bucket@[a].sample@) by {
                    if a < before.len() {
                        assert(bucket@[a] == before[a]);
                    }
                }
                assert forall|a: int, b: int|
                    0 <= a < b < bucket@.len() implies bucket@[a].key@ != bucket@[b].key@ by {
                    if b < before.len() {
                        assert(bucket@[a] == before[a]);
                        assert(bucket@[b] == before[b]);
                    }
                }
            }
        },
    }
}

impl SampleCacheStore {
    /// Each bucket holds one entry per series, each hashing to the bucket.
    pub closed spec fn wf(&self) -> bool {
        forall|h: u64| #[trigger] self.buckets@.contains_key(h) ==> bucket_wf(self.buckets@[h]@, h)
    }

    /// Every entry of a well-formed cache is stored under its sample's fingerprint.
    pub proof fn lemma_consistent(&self)
        requires
            self.wf(),
        ensures
            cache_consistent(self@),
    {
        assert forall|k: Seq<(Seq<char>, Seq<char>)>| #[trigger] self@.contains_key(k) implies fingerprint(
            self@[k].0,
        ) == k by {
            let h = bucket_of(k);
            let es = self.buckets@[h]@;
            assert(bucket_wf(es, h));
            lemma_entries_map_consistent(es);
        }
    }

    /// An empty cache.
    pub fn new() -> (r: SampleCacheStore)
        ensures
            r.wf(),
            r@ == Map::<Seq<(Seq<char>, Seq<char>)>, (SampleView, u64)>::empty(),
    {
        broadcast use vstd::std_specs::hash::group_hash_axioms;

        let r = SampleCacheStore { buckets: HashMap::new() };
        assert(r@ =~= Map::<Seq<(Seq<char>, Seq<char>)>, (SampleView, u64)>::empty());
        r
    }

    /// The sample stored for the series of `sample`, if it was stored after
    /// `when - staleness`.
    pub fn get(&self, sample: &Sample, when: u64, staleness: u64) -> (r: Option<Sample>)
        requires
            self.wf(),
        ensures
            match r {
                Some(x) => cache_get(self@, sample@, when, staleness) == Some(x@),
                None => cache_get(self@, sample@, when, staleness) is None,
            },
    {
        broadcast use vstd::std_specs::hash::group_hash_axioms;

        let key = OrderedLabelSet::from(sample);
        let h = key.bucket();
        let bucket = match self.buckets.get(&h) {
            Some(b) => b,
            None => {
                return None;
            },
        };
        assert(self.buckets@.contains_key(h));
        match position(bucket, &key) {
            Some(i) => {
                proof {
                    lemma_entries_map_has(bucket@, i as int);
                }
                if staleness <= when {
                    let when_minus_staleness = when - staleness;
                    if bucket[i].saved_at > when_minus_staleness {
                        Some(bucket[i].sample.copy())
                    } else {
                        None
                    }
                } else {
                    None
                }
            },
            None => {
                proof {
                    lemma_entries_map_lacks(bucket@, key@);
                }
                None
            },
        }
    }

    /// Stores `sample` for its series, stamped `at_`.
    pub fn put(&mut self, sample: Sample, at_: u64)
        requires
            old(self).wf(),
        ensures
            final(self).wf(),
            final(self)@ == cache_put(old(self)@, sample@, at_),
    {
        broadcast use vstd::std_specs::hash::group_hash_axioms;

        let key = OrderedLabelSet::from(&sample);
        let h = key.bucket();
        let ghost k = key@;
        let ghost sv = sample@;
        let ghost old_view = self@;
        let ghost old_buckets = self.buckets@;
        let entry = SampleCacheEntry { key, sample, saved_at: at_ };
        let mut bucket = match self.buckets.remove(&h) {
            Some(b) => b,
            None => {
                let empty: Vec<SampleCacheEntry> = Vec::new();
                assert(entries_map(empty@) =~= Map::empty());
                empty
            },
        };
        let ghost old_bucket = bucket@;
        assert(bucket_wf(old_bucket, h));
        assert(old_buckets.contains_key(h) ==> old_bucket == old_buckets[h]@);
        assert(!old_buckets.contains_key(h) ==> entries_map(old_bucket) == Map::<
            Seq<(Seq<char>, Seq<char>)>,
            (SampleView, u64),
        >::empty());
        store_in(&mut bucket, entry, Ghost(h));
        self.buckets.insert(h, bucket);
        proof {
            assert forall|g: u64| #[trigger] self.buckets@.contains_key(g) implies bucket_wf(
                self.buckets@[g]@,
                g,
            ) by {
                if g != h {
                    assert(old_buckets.contains_key(g));
                }
            }
            assert(self@ =~= cache_put(old_view, sv, at_));
        }
    }
}

} // verus!
