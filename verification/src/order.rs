//! The order of texts by code points, and sorted lists of texts.

use vstd::prelude::*;

use crate::text;
use crate::text::to_chars;

verus! {

/// Whether `a` comes before `b`, or is `b`, in the lexicographic order of code points.
pub open spec fn text_le(a: Seq<char>, b: Seq<char>) -> bool
    decreases a.len(),
{
    if a.len() == 0 {
        true
    } else if b.len() == 0 {
        false
    } else if a[0] == b[0] {
        text_le(a.drop_first(), b.drop_first())
    } else {
        a[0] < b[0]
    }
}

/// Whether `a` comes before `b` in the lexicographic order of code points.
pub open spec fn text_lt(a: Seq<char>, b: Seq<char>) -> bool {
    text_le(a, b) && a != b
}

proof fn lemma_le_reflexive(a: Seq<char>)
    ensures
        text_le(a, a),
    decreases a.len(),
{
    if a.len() > 0 {
        lemma_le_reflexive(a.drop_first());
    }
}

proof fn lemma_le_antisymmetric(a: Seq<char>, b: Seq<char>)
    requires
        text_le(a, b),
        text_le(b, a),
    ensures
        a == b,
    decreases a.len(),
{
    if a.len() > 0 && b.len() > 0 {
        lemma_le_antisymmetric(a.drop_first(), b.drop_first());
        assert(a =~= seq![a[0]] + a.drop_first());
        assert(b =~= seq![b[0]] + b.drop_first());
    } else {
        assert(a =~= b);
    }
}

proof fn lemma_le_transitive(a: Seq<char>, b: Seq<char>, c: Seq<char>)
    requires
        text_le(a, b),
        text_le(b, c),
    ensures
        text_le(a, c),
    decreases a.len(),
{
    if a.len() > 0 && b.len() > 0 && c.len() > 0 && a[0] == b[0] && b[0] == c[0] {
        lemma_le_transitive(a.drop_first(), b.drop_first(), c.drop_first());
    }
}

proof fn lemma_le_total(a: Seq<char>, b: Seq<char>)
    ensures
        text_le(a, b) || text_le(b, a),
    decreases a.len(),
{
    if a.len() > 0 && b.len() > 0 && a[0] == b[0] {
        lemma_le_total(a.drop_first(), b.drop_first());
    }
}

/// `text_le` orders all texts.
pub proof fn lemma_text_order()
    ensures
        vstd::relations::total_ordering(|a: Seq<char>, b: Seq<char>| text_le(a, b)),
        forall|a: Seq<char>| #[trigger] text_le(a, a),
        forall|a: Seq<char>, b: Seq<char>| #[trigger] text_le(a, b) || text_le(b, a),
        forall|a: Seq<char>, b: Seq<char>| #[trigger] text_le(a, b) && text_le(b, a) ==> a == b,
        forall|a: Seq<char>, b: Seq<char>, c: Seq<char>| #[trigger]
            text_le(a, b) && #[trigger] text_le(b, c) ==> text_le(a, c),
{
    assert forall|a: Seq<char>| #[trigger] text_le(a, a) by {
        lemma_le_reflexive(a);
    }
    assert forall|a: Seq<char>, b: Seq<char>| #[trigger] text_le(a, b) || text_le(b, a) by {
        lemma_le_total(a, b);
    }
    assert forall|a: Seq<char>, b: Seq<char>| #[trigger]
        text_le(a, b) && text_le(b, a) implies a == b by {
        lemma_le_antisymmetric(a, b);
    }
    assert forall|a: Seq<char>, b: Seq<char>, c: Seq<char>| #[trigger]
        text_le(a, b) && #[trigger] text_le(b, c) implies text_le(a, c) by {
        lemma_le_transitive(a, b, c);
    }
}

/// Whether `a` comes before `b`, or is `b`, in the lexicographic order of code points.
pub fn at_most(a: &str, b: &str) -> (r: bool)
    ensures
        r == text_le(a@, b@),
{
    let x = to_chars(a);
    let y = to_chars(b);
    let mut i: usize = 0;
    assert(x@.skip(0) =~= x@);
    assert(y@.skip(0) =~= y@);
    while i < x.len()
        invariant
            i <= x@.len(),
            i <= y@.len(),
            text_le(a@, b@) == text_le(x@.skip(i as int), y@.skip(i as int)),
        decreases x.len() - i,
    {
        if i == y.len() {
            return false;
        }
        if x[i] != y[i] {
            return x[i] < y[i];
        }
        assert(x@.skip(i as int).drop_first() =~= x@.skip(i + 1));
        assert(y@.skip(i as int).drop_first() =~= y@.skip(i + 1));
        i += 1;
    }
    true
}

/// The texts in ascending order.
pub open spec fn in_order(s: Seq<Seq<char>>) -> Seq<Seq<char>> {
    s.sort_by(|a: Seq<char>, b: Seq<char>| text_le(a, b))
}

/// `in_order` rearranges the texts, and each is at most the one behind it.
pub proof fn lemma_in_order(s: Seq<Seq<char>>)
    ensures
        in_order(s).to_multiset() == s.to_multiset(),
        in_order(s).len() == s.len(),
        forall|i: int, j: int|
            0 <= i < j < s.len() ==> #[trigger] text_le(in_order(s)[i], in_order(s)[j]),
{
    let le = |a: Seq<char>, b: Seq<char>| text_le(a, b);
    lemma_text_order();
    s.lemma_sort_by_ensures(le);
    s.to_multiset_ensures();
    in_order(s).to_multiset_ensures();
    assert forall|i: int, j: int| 0 <= i < j < s.len() implies #[trigger] text_le(
        in_order(s)[i],
        in_order(s)[j],
    ) by {
        assert(le(in_order(s)[i], in_order(s)[j]));
    }
}

/// A sorted copy of the list.
pub fn sort(list: &Vec<String>) -> (r: Vec<String>)
    ensures
        text::texts(r@) == in_order(text::texts(list@)),
{
    let ghost le = |a: Seq<char>, b: Seq<char>| text_le(a, b);
    let ghost all = text::texts(list@);
    let mut out: Vec<String> = Vec::new();
    let mut i: usize = 0;
    proof {
        lemma_text_order();
        assert(all.take(0) =~= text::texts(out@));
    }
    while i < list.len()
        invariant
            i <= list@.len(),
            all == text::texts(list@),
            le == (|a: Seq<char>, b: Seq<char>| text_le(a, b)),
            vstd::relations::total_ordering(le),
            vstd::relations::sorted_by(text::texts(out@), le),
            text::texts(out@).to_multiset() == all.take(i as int).to_multiset(),
        decreases list.len() - i,
    {
        let mut at: usize = 0;
        while at < out.len() && at_most(out[at].as_str(), list[i].as_str())
            invariant
                at <= out@.len(),
                i < list@.len(),
                forall|j: int| 0 <= j < at ==> text_le(#[trigger] out@[j]@, list@[i as int]@),
            decreases out.len() - at,
        {
            at += 1;
        }
        let ghost before = text::texts(out@);
        let ghost x = list@[i as int]@;
        out.insert(at, list[i].clone());
        proof {
            let after = text::texts(out@);
            assert(after =~= before.insert(at as int, x));
            vstd::seq_lib::to_multiset_insert(before, at as int, x);
            assert(all.take(i + 1) =~= all.take(i as int).push(x));
            vstd::seq_lib::to_multiset_build(all.take(i as int), x);
            assert(forall|j: int| 0 <= j < at ==> text_le(#[trigger] before[j], x));
            assert forall|j: int, k: int| 0 <= j < k < after.len() implies #[trigger] le(
                after[j],
                after[k],
            ) by {
                if j < at && k == at {
                    assert(text_le(before[j], x));
                } else if j == at {
                    assert(!text_le(before[at as int], x));
                    assert(le(x, before[at as int]) || le(before[at as int], x));
                    if k > at + 1 {
                        assert(le(before[at as int], before[k - 1]));
                    }
                } else if k < at {
                    assert(le(before[j], before[k]));
                } else if j < at {
                    assert(le(before[j], before[k - 1]));
                } else {
                    assert(le(before[j - 1], before[k - 1]));
                }
            }
        }
        i += 1;
    }
    proof {
        assert(all.take(list@.len() as int) =~= all);
        all.lemma_sort_by_ensures(le);
        vstd::seq_lib::lemma_sorted_unique(text::texts(out@), in_order(all), le);
    }
    out
}

/// Whether each text comes before all those behind it.
pub open spec fn ascending(s: Seq<Seq<char>>) -> bool {
    forall|i: int, j: int| 0 <= i < j < s.len() ==> #[trigger] text_lt(s[i], s[j])
}

/// An ascending list holds no text twice.
pub proof fn lemma_ascending_distinct(s: Seq<Seq<char>>, i: int, j: int)
    requires
        ascending(s),
        0 <= i < s.len(),
        0 <= j < s.len(),
        s[i] == s[j],
    ensures
        i == j,
{
    if i < j {
        assert(text_lt(s[i], s[j]));
    } else if j < i {
        assert(text_lt(s[j], s[i]));
    }
}

/// Two ascending lists of the same texts are the same list.
pub proof fn lemma_ascending_unique(a: Seq<Seq<char>>, b: Seq<Seq<char>>)
    requires
        ascending(a),
        ascending(b),
        forall|x: Seq<char>| a.contains(x) <==> b.contains(x),
    ensures
        a == b,
    decreases a.len(),
{
    lemma_text_order();
    if a.len() == 0 {
        if b.len() > 0 {
            assert(b.contains(b[0]));
        }
        assert(a =~= b);
    } else {
        assert(a.contains(a[0]));
        assert(b.contains(a[0]));
        assert(b.contains(b[0]));
        assert(a.contains(b[0]));
        let i = choose|i: int| 0 <= i < b.len() && b[i] == a[0];
        let j = choose|j: int| 0 <= j < a.len() && a[j] == b[0];
        if i > 0 {
            assert(text_lt(b[0], b[i]));
            if j > 0 {
                assert(text_lt(a[0], a[j]));
            }
        }
        assert(a[0] == b[0]);
        let c = a.drop_first();
        let d = b.drop_first();
        assert forall|k: int, l: int| 0 <= k < l < c.len() implies #[trigger] text_lt(c[k], c[l]) by {
            assert(text_lt(a[k + 1], a[l + 1]));
        }
        assert forall|k: int, l: int| 0 <= k < l < d.len() implies #[trigger] text_lt(d[k], d[l]) by {
            assert(text_lt(b[k + 1], b[l + 1]));
        }
        assert forall|x: Seq<char>| c.contains(x) <==> d.contains(x) by {
            if c.contains(x) {
                let k = choose|k: int| 0 <= k < c.len() && c[k] == x;
                assert(a[k + 1] == x);
                assert(a.contains(x));
                assert(b.contains(x));
                let l = choose|l: int| 0 <= l < b.len() && b[l] == x;
                if l == 0 {
                    assert(text_lt(a[0], a[k + 1]));
                }
                assert(d[l - 1] == x);
            }
            if d.contains(x) {
                let k = choose|k: int| 0 <= k < d.len() && d[k] == x;
                assert(b[k + 1] == x);
                assert(b.contains(x));
                assert(a.contains(x));
                let l = choose|l: int| 0 <= l < a.len() && a[l] == x;
                if l == 0 {
                    assert(text_lt(b[0], b[k + 1]));
                }
                assert(c[l - 1] == x);
            }
        }
        lemma_ascending_unique(c, d);
        assert(a =~= seq![a[0]] + c);
        assert(b =~= seq![b[0]] + d);
    }
}

} // verus!
