//! Text helpers: the lexicographic order on strings, a comparator that
//! decides it, and the concatenation primitives the renderer builds on.

use itertools::Itertools;
use std::cmp::Ordering;
use vstd::prelude::*;
use vstd::relations::{sorted_by, total_ordering};
use vstd::seq_lib::lemma_sorted_unique;

verus! {

/// Lexicographic order on character sequences, the order `str` itself uses.
pub open spec fn text_le(a: Seq<char>, b: Seq<char>) -> bool
    decreases a.len(),
{
    if a.len() == 0 {
        true
    } else if b.len() == 0 {
        false
    } else if a[0] != b[0] {
        (a[0] as int) < (b[0] as int)
    } else {
        text_le(a.drop_first(), b.drop_first())
    }
}

/// `text_le` as a relation, for the sorting lemmas of vstd.
pub open spec fn text_order() -> spec_fn(Seq<char>, Seq<char>) -> bool {
    |a: Seq<char>, b: Seq<char>| text_le(a, b)
}

proof fn lemma_text_le_reflexive(a: Seq<char>)
    ensures
        text_le(a, a),
    decreases a.len(),
{
    if a.len() > 0 {
        lemma_text_le_reflexive(a.drop_first());
    }
}

proof fn lemma_text_le_antisymmetric(a: Seq<char>, b: Seq<char>)
    requires
        text_le(a, b),
        text_le(b, a),
    ensures
        a == b,
    decreases a.len(),
{
    if a.len() > 0 && b.len() > 0 {
        if a[0] == b[0] {
            lemma_text_le_antisymmetric(a.drop_first(), b.drop_first());
            assert(a =~= seq![a[0]] + a.drop_first());
            assert(b =~= seq![b[0]] + b.drop_first());
        }
    } else {
        assert(a =~= b);
    }
}

proof fn lemma_text_le_transitive(a: Seq<char>, b: Seq<char>, c: Seq<char>)
    requires
        text_le(a, b),
        text_le(b, c),
    ensures
        text_le(a, c),
    decreases a.len(),
{
    if a.len() > 0 && b.len() > 0 && c.len() > 0 {
        if a[0] == b[0] && b[0] == c[0] {
            lemma_text_le_transitive(a.drop_first(), b.drop_first(), c.drop_first());
        }
    }
}

proof fn lemma_text_le_connected(a: Seq<char>, b: Seq<char>)
    ensures
        text_le(a, b) || text_le(b, a),
    decreases a.len(),
{
    if a.len() > 0 && b.len() > 0 {
        if a[0] == b[0] {
            lemma_text_le_connected(a.drop_first(), b.drop_first());
        } else {
            assert((a[0] as int) != (b[0] as int));
        }
    }
}

/// The lexicographic order is a total order.
pub proof fn lemma_text_order_total()
    ensures
        total_ordering(text_order()),
{
    assert forall|a: Seq<char>| #[trigger] text_order()(a, a) by {
        lemma_text_le_reflexive(a);
    }
    assert forall|a: Seq<char>, b: Seq<char>|
        #[trigger] text_order()(a, b) && #[trigger] text_order()(b, a) implies a == b by {
        lemma_text_le_antisymmetric(a, b);
    }
    assert forall|a: Seq<char>, b: Seq<char>, c: Seq<char>|
        #[trigger] text_order()(a, b) && #[trigger] text_order()(b, c) implies text_order()(
        a,
        c,
    ) by {
        lemma_text_le_transitive(a, b, c);
    }
    assert forall|a: Seq<char>, b: Seq<char>|
        #[trigger] text_order()(a, b) || #[trigger] text_order()(b, a) by {
        lemma_text_le_connected(a, b);
    }
}

/// The characters of `s`, one element each.
pub fn chars_of(s: &str) -> (r: Vec<char>)
    ensures
        r@ == s@,
{
    let mut r: Vec<char> = Vec::new();
    for c in it: s.chars()
        invariant
            it.seq() == s@,
            r@ == it.seq().take(it.index() as int),
    {
        r.push(c);
    }
    r
}

proof fn lemma_text_le_step(a: Seq<char>, b: Seq<char>, i: int)
    requires
        0 <= i < a.len(),
        i < b.len(),
        a[i] == b[i],
    ensures
        text_le(a.skip(i), b.skip(i)) == text_le(a.skip(i + 1), b.skip(i + 1)),
        (a.skip(i) == b.skip(i)) == (a.skip(i + 1) == b.skip(i + 1)),
{
    assert(a.skip(i).drop_first() =~= a.skip(i + 1));
    assert(b.skip(i).drop_first() =~= b.skip(i + 1));
    assert(a.skip(i) =~= seq![a[i]] + a.skip(i + 1));
    assert(b.skip(i) =~= seq![b[i]] + b.skip(i + 1));
}

/// Three-way lexicographic comparison of two strings.
pub fn compare_text(a: &String, b: &String) -> (r: Ordering)
    ensures
        (r == Ordering::Equal) == (a@ == b@),
        (r == Ordering::Less) == (text_le(a@, b@) && a@ != b@),
        (r == Ordering::Greater) == !text_le(a@, b@),
{
    let x = chars_of(a.as_str());
    let y = chars_of(b.as_str());
    let mut i: usize = 0;
    assert(x@.skip(0) =~= x@);
    assert(y@.skip(0) =~= y@);
    while i < x.len() && i < y.len()
        invariant
            x@ == a@,
            y@ == b@,
            0 <= i <= x.len(),
            i <= y.len(),
            text_le(a@, b@) == text_le(x@.skip(i as int), y@.skip(i as int)),
            (a@ == b@) == (x@.skip(i as int) == y@.skip(i as int)),
        decreases x.len() - i,
    {
        if x[i] != y[i] {
            let ghost xs = x@.skip(i as int);
            let ghost ys = y@.skip(i as int);
            assert(xs[0] == x@[i as int] && ys[0] == y@[i as int]);
            assert(xs != ys);
            if x[i] < y[i] {
                return Ordering::Less;
            } else {
                return Ordering::Greater;
            }
        }
        proof {
            lemma_text_le_step(x@, y@, i as int);
        }
        i = i + 1;
    }
    let ghost xs = x@.skip(i as int);
    let ghost ys = y@.skip(i as int);
    if x.len() == y.len() {
        assert(xs.len() == 0 && ys.len() == 0);
        assert(xs =~= ys);
        Ordering::Equal
    } else if x.len() < y.len() {
        assert(xs.len() == 0 && ys.len() > 0);
        assert(xs != ys);
        Ordering::Less
    } else {
        assert(ys.len() == 0 && xs.len() > 0);
        Ordering::Greater
    }
}

/// Order on (name, value) pairs: by name, then by value.
pub open spec fn label_le(p: (Seq<char>, Seq<char>), q: (Seq<char>, Seq<char>)) -> bool {
    if p.0 == q.0 {
        text_le(p.1, q.1)
    } else {
        text_le(p.0, q.0)
    }
}

/// `label_le` as a relation, for the sorting lemmas of vstd.
pub open spec fn label_order() -> spec_fn((Seq<char>, Seq<char>), (Seq<char>, Seq<char>)) -> bool {
    |p: (Seq<char>, Seq<char>), q: (Seq<char>, Seq<char>)| label_le(p, q)
}

/// The order on (name, value) pairs is a total order.
pub proof fn lemma_label_order_total()
    ensures
        total_ordering(label_order()),
{
    lemma_text_order_total();
    assert forall|p: (Seq<char>, Seq<char>)| #[trigger] label_order()(p, p) by {
        lemma_text_le_reflexive(p.1);
    }
    assert forall|p: (Seq<char>, Seq<char>), q: (Seq<char>, Seq<char>)|
        #[trigger] label_order()(p, q) && #[trigger] label_order()(q, p) implies p == q by {
        if p.0 == q.0 {
            lemma_text_le_antisymmetric(p.1, q.1);
        } else {
            lemma_text_le_antisymmetric(p.0, q.0);
        }
    }
    assert forall|
        p: (Seq<char>, Seq<char>),
        q: (Seq<char>, Seq<char>),
        o: (Seq<char>, Seq<char>),
    | #[trigger] label_order()(p, q) && #[trigger] label_order()(q, o) implies label_order()(
        p,
        o,
    ) by {
        if p.0 == q.0 && q.0 == o.0 {
            lemma_text_le_transitive(p.1, q.1, o.1);
        } else if p.0 == q.0 {
        } else if q.0 == o.0 {
        } else {
            lemma_text_le_transitive(p.0, q.0, o.0);
            if p.0 == o.0 {
                lemma_text_le_antisymmetric(p.0, q.0);
            }
        }
    }
    assert forall|p: (Seq<char>, Seq<char>), q: (Seq<char>, Seq<char>)|
        #[trigger] label_order()(p, q) || #[trigger] label_order()(q, p) by {
        lemma_text_le_connected(p.0, q.0);
        lemma_text_le_connected(p.1, q.1);
    }
}

/// Three-way comparison of (name, value) pairs: by name, then by value.
pub fn compare_label_pairs(p: &(String, String), q: &(String, String)) -> (r: Ordering)
    ensures
        (r == Ordering::Equal) == (p@ == q@),
        (r == Ordering::Less) == (label_le(p@, q@) && p@ != q@),
        (r == Ordering::Greater) == !label_le(p@, q@),
{
    let by_name = compare_text(&p.0, &q.0);
    match by_name {
        Ordering::Equal => compare_text(&p.1, &q.1),
        _ => by_name,
    }
}

/// A sequence sorted by the lexicographic order with the same elements as
/// `v` is `v.sort_by(text_order())`.
pub proof fn lemma_sorted_texts_unique(v: Seq<Seq<char>>, r: Seq<Seq<char>>)
    requires
        r.to_multiset() == v.to_multiset(),
        sorted_by(r, text_order()),
    ensures
        r == v.sort_by(text_order()),
{
    lemma_text_order_total();
    v.lemma_sort_by_ensures(text_order());
    lemma_sorted_unique(r, v.sort_by(text_order()), text_order());
}

/// A sequence sorted by the pair order with the same elements as `v` is
/// `v.sort_by(label_order())`.
pub proof fn lemma_sorted_pairs_unique(
    v: Seq<(Seq<char>, Seq<char>)>,
    r: Seq<(Seq<char>, Seq<char>)>,
)
    requires
        r.to_multiset() == v.to_multiset(),
        sorted_by(r, label_order()),
    ensures
        r == v.sort_by(label_order()),
{
    lemma_label_order_total();
    v.lemma_sort_by_ensures(label_order());
    lemma_sorted_unique(r, v.sort_by(label_order()), label_order());
}

/// `items` joined with `sep` between consecutive items.
pub open spec fn join(items: Seq<Seq<char>>, sep: Seq<char>) -> Seq<char>
    decreases items.len(),
{
    if items.len() == 0 {
        Seq::empty()
    } else if items.len() == 1 {
        items[0]
    } else {
        join(items.drop_last(), sep) + sep + items.last()
    }
}

/// Each line followed by a newline.
pub open spec fn terminated(lines: Seq<Seq<char>>) -> Seq<char>
    decreases lines.len(),
{
    if lines.len() == 0 {
        Seq::empty()
    } else {
        terminated(lines.drop_last()) + lines.last() + "\n"@
    }
}

/// The view of an optional string.
pub open spec fn opt_text(o: Option<String>) -> Option<Seq<char>> {
    match o {
        Some(t) => Some(t@),
        None => None,
    }
}

/// The value paired with the first occurrence of `key` in `pairs`.
pub open spec fn lookup_pair(pairs: Seq<(Seq<char>, Seq<char>)>, key: Seq<char>) -> Option<Seq<char>>
    decreases pairs.len(),
{
    if pairs.len() == 0 {
        None
    } else {
        match lookup_pair(pairs.drop_last(), key) {
            Some(v) => Some(v),
            None => if pairs.last().0 == key {
                Some(pairs.last().1)
            } else {
                None
            },
        }
    }
}

/// The value paired with the first occurrence of `key` in `pairs`.
pub fn find_pair(pairs: &Vec<(String, String)>, key: &String) -> (r: Option<String>)
    ensures
        opt_text(r) == lookup_pair(pairs.deep_view(), key@),
{
    let ghost ds = pairs.deep_view();
    let mut found: Option<String> = None;
    for i in 0..pairs.len()
        invariant
            ds == pairs.deep_view(),
            opt_text(found) == lookup_pair(ds.take(i as int), key@),
    {
        assert(ds.take(i + 1).drop_last() =~= ds.take(i as int));
        if found.is_none() && pairs[i].0 == *key {
            found = Some(pairs[i].1.clone());
        }
    }
    assert(ds.take(pairs.len() as int) =~= ds);
    found
}

/// Relies on `String::push`: appends one character.
#[verifier::external_body]
pub(crate) fn push_char(s: &mut String, c: char)
    ensures
        final(s)@ == old(s)@.push(c),
{
    s.push(c)
}

/// The decimal digits of `n`, most significant first.
pub open spec fn decimal(n: nat) -> Seq<char>
    decreases n,
{
    let last = ((48 + n % 10) as u8) as char;
    if n < 10 {
        seq![last]
    } else {
        decimal(n / 10).push(last)
    }
}

/// The decimal digits of `n`.
pub fn decimal_text(n: usize) -> (r: String)
    ensures
        r@ == decimal(n as nat),
    decreases n,
{
    let mut out = if n >= 10 {
        decimal_text(n / 10)
    } else {
        String::new()
    };
    let digit: u8 = (n % 10) as u8;
    push_char(&mut out, (48u8 + digit) as char);
    assert(out@ =~= decimal(n as nat));
    out
}

/// A fresh string holding `s`.
pub fn text_of(s: &str) -> (r: String)
    ensures
        r@ == s@,
{
    let mut r = String::new();
    r.append(s);
    r
}

/// `items` joined with `sep`.
pub fn join_texts(items: &Vec<String>, sep: &str) -> (r: String)
    ensures
        r@ == join(items.deep_view(), sep@),
{
    let ghost xs = items.deep_view();
    let mut out = String::new();
    for i in 0..items.len()
        invariant
            xs == items.deep_view(),
            out@ == join(xs.take(i as int), sep@),
    {
        assert(xs.take(i + 1).drop_last() =~= xs.take(i as int));
        if i > 0 {
            out.append(sep);
        }
        out.append(items[i].as_str());
    }
    assert(xs.take(items.len() as int) =~= xs);
    out
}

/// Each line of `lines` followed by a newline; a lone newline when there is none.
pub fn terminate_lines(lines: &Vec<String>) -> (r: String)
    ensures
        r@ == (if lines.len() == 0 {
            "\n"@
        } else {
            terminated(lines.deep_view())
        }),
{
    let ghost xs = lines.deep_view();
    let mut out = String::new();
    if lines.len() == 0 {
        out.append("\n");
        return out;
    }
    for i in 0..lines.len()
        invariant
            xs == lines.deep_view(),
            out@ == terminated(xs.take(i as int)),
    {
        assert(xs.take(i + 1).drop_last() =~= xs.take(i as int));
        out.append(lines[i].as_str());
        out.append("\n");
    }
    assert(xs.take(lines.len() as int) =~= xs);
    out
}

/// Relies on `Itertools::sorted_by`: it collects the items and sorts them
/// with `slice::sort_by` under the comparator given, here the lexicographic one.
#[verifier::external_body]
pub(crate) fn sort_texts(v: Vec<String>) -> (r: Vec<String>)
    ensures
        r.deep_view().to_multiset() == v.deep_view().to_multiset(),
        sorted_by(r.deep_view(), text_order()),
{
    v.into_iter().sorted_by(|a, b| compare_text(a, b)).collect()
}

/// Relies on `Itertools::sorted_unstable_by`: it collects the items and sorts
/// them with `slice::sort_unstable_by` under the comparator given, here the
/// order on (name, value) pairs.
#[verifier::external_body]
pub(crate) fn sort_label_pairs(v: Vec<(String, String)>) -> (r: Vec<(String, String)>)
    ensures
        r.deep_view().to_multiset() == v.deep_view().to_multiset(),
        sorted_by(r.deep_view(), label_order()),
{
    v.into_iter().sorted_unstable_by(|a, b| compare_label_pairs(a, b)).collect()
}

} // verus!
