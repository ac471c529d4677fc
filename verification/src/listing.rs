//! Named things in a list, and the maps that such lists write out.

use vstd::prelude::*;

use crate::order;
use crate::order::at_most;
use crate::text;
use crate::text::{listed, same};

verus! {

/// The names in the list.
pub open spec fn firsts<T>(s: Seq<(Seq<char>, T)>) -> Seq<Seq<char>> {
    s.map_values(|p: (Seq<char>, T)| p.0)
}

/// Whether `m` has exactly the members `s`, no name twice among them.
pub open spec fn object_of<T>(s: Seq<(Seq<char>, T)>, m: Map<Seq<char>, T>) -> bool {
    &&& forall|i: int, j: int| 0 <= i < j < s.len() ==> (#[trigger] s[i]).0 != (#[trigger] s[j]).0
    &&& forall|i: int|
        0 <= i < s.len() ==> m.dom().contains((#[trigger] s[i]).0) && m[s[i].0] == s[i].1
    &&& forall|k: Seq<char>| #[trigger] m.dom().contains(k) ==> firsts(s).contains(k)
}

/// Whether `s` lists the members of `m` in ascending order of their names.
pub open spec fn lists<T>(s: Seq<(Seq<char>, T)>, m: Map<Seq<char>, T>) -> bool {
    &&& order::ascending(firsts(s))
    &&& forall|i: int|
        0 <= i < s.len() ==> m.dom().contains((#[trigger] s[i]).0) && m[s[i].0] == s[i].1
    &&& forall|k: Seq<char>| #[trigger] m.dom().contains(k) ==> firsts(s).contains(k)
}

/// The members of `m` in ascending order of their names.
pub open spec fn listing<T>(m: Map<Seq<char>, T>) -> Seq<(Seq<char>, T)> {
    choose|s: Seq<(Seq<char>, T)>| lists(s, m)
}

/// A place in the list with the name `k`.
pub open spec fn place_of<T>(s: Seq<(Seq<char>, T)>, k: Seq<char>) -> int {
    choose|i: int| 0 <= i < s.len() && (#[trigger] s[i]).0 == k
}

/// What stands under the name `k` in the list.
pub open spec fn value_of<T>(s: Seq<(Seq<char>, T)>, k: Seq<char>) -> T {
    s[place_of(s, k)].1
}

/// The map with the members that the list names.
pub open spec fn map_of<T>(s: Seq<(Seq<char>, T)>) -> Map<Seq<char>, T> {
    Map::new(|k: Seq<char>| firsts(s).contains(k), |k: Seq<char>| value_of(s, k))
}

/// What is left of `m` without these names.
pub open spec fn without<T>(m: Map<Seq<char>, T>, removed: Seq<Seq<char>>) -> Map<Seq<char>, T> {
    Map::new(|k: Seq<char>| m.dom().contains(k) && !removed.contains(k), |k: Seq<char>| m[k])
}

/// There are as many names as pairs, each in its place.
pub proof fn lemma_firsts<T>(s: Seq<(Seq<char>, T)>)
    ensures
        firsts(s).len() == s.len(),
        forall|i: int| 0 <= i < s.len() ==> #[trigger] firsts(s)[i] == s[i].0,
{
}

/// A map has one listing.
pub proof fn lemma_listing<T>(s: Seq<(Seq<char>, T)>, m: Map<Seq<char>, T>)
    requires
        lists(s, m),
    ensures
        listing(m) == s,
        lists(listing(m), m),
{
    let t = listing(m);
    assert(lists(t, m));
    assert forall|x: Seq<char>| firsts(s).contains(x) <==> firsts(t).contains(x) by {
        if firsts(s).contains(x) {
            let i = choose|i: int| 0 <= i < firsts(s).len() && firsts(s)[i] == x;
            assert(m.dom().contains(s[i].0));
        }
        if firsts(t).contains(x) {
            let i = choose|i: int| 0 <= i < firsts(t).len() && firsts(t)[i] == x;
            assert(m.dom().contains(t[i].0));
        }
    }
    order::lemma_ascending_unique(firsts(s), firsts(t));
    assert(firsts(s).len() == s.len());
    assert(firsts(t).len() == t.len());
    assert forall|i: int| 0 <= i < s.len() implies s[i] == t[i] by {
        assert(firsts(s)[i] == s[i].0);
        assert(firsts(t)[i] == t[i].0);
    }
    assert(s =~= t);
}

/// A finite map can be listed.
pub proof fn lemma_finite_listing<T>(m: Map<Seq<char>, T>)
    requires
        m.dom().finite(),
    ensures
        lists(listing(m), m),
    decreases m.dom().len(),
{
    if m.dom().len() == 0 {
        assert(lists(Seq::<(Seq<char>, T)>::empty(), m));
    } else {
        let le = |a: Seq<char>, b: Seq<char>| order::text_le(a, b);
        order::lemma_text_order();
        m.dom().find_unique_maximal_ensures(le);
        let k = m.dom().find_unique_maximal(le);
        let rest = m.remove(k);
        lemma_finite_listing(rest);
        let t = listing(rest);
        let s = t.push((k, m[k]));
        lemma_firsts(t);
        lemma_firsts(s);
        assert forall|i: int, j: int| 0 <= i < j < firsts(s).len() implies #[trigger] order::text_lt(
            firsts(s)[i],
            firsts(s)[j],
        ) by {
            if j < t.len() {
                assert(order::text_lt(firsts(t)[i], firsts(t)[j]));
            } else {
                let x = t[i].0;
                assert(rest.dom().contains(t[i].0));
                assert(le(k, x) ==> le(x, k));
                assert(le(k, x) || le(x, k));
            }
        }
        assert forall|q: Seq<char>| #[trigger] m.dom().contains(q) implies firsts(s).contains(q) by {
            if q == k {
                assert(firsts(s)[t.len() as int] == k);
            } else {
                assert(rest.dom().contains(q));
                let j = choose|j: int| 0 <= j < firsts(t).len() && firsts(t)[j] == q;
                assert(firsts(s)[j] == q);
            }
        }
        assert forall|i: int| 0 <= i < s.len() implies m.dom().contains((#[trigger] s[i]).0)
            && m[s[i].0] == s[i].1 by {
            if i < t.len() {
                assert(rest.dom().contains(t[i].0) && rest[t[i].0] == t[i].1);
            }
        }
        assert(lists(s, m));
    }
}

/// What can be listed is finite.
pub proof fn lemma_listed_is_finite<T>(s: Seq<(Seq<char>, T)>, m: Map<Seq<char>, T>)
    requires
        lists(s, m),
    ensures
        m.dom().finite(),
{
    let names = firsts(s).to_set();
    vstd::seq_lib::seq_to_set_is_finite(firsts(s));
    assert(m.dom().subset_of(names));
    vstd::set_lib::lemma_len_subset(m.dom(), names);
}

/// In an ascending list, what stands under a name is what stands beside it.
pub proof fn lemma_value_of<T>(s: Seq<(Seq<char>, T)>, i: int)
    requires
        order::ascending(firsts(s)),
        0 <= i < s.len(),
    ensures
        value_of(s, s[i].0) == s[i].1,
        firsts(s).contains(s[i].0),
{
    let k = s[i].0;
    let j = place_of(s, k);
    assert(0 <= j < s.len() && s[j].0 == k);
    assert(firsts(s)[i] == k);
    assert(firsts(s)[j] == k);
    order::lemma_ascending_distinct(firsts(s), i, j);
}

/// An ascending list lists the map that it writes out, and no other map.
pub proof fn lemma_map_of<T>(s: Seq<(Seq<char>, T)>)
    requires
        order::ascending(firsts(s)),
    ensures
        lists(s, map_of(s)),
        listing(map_of(s)) == s,
        forall|m: Map<Seq<char>, T>| lists(s, m) ==> m == map_of(s),
{
    assert forall|i: int| 0 <= i < s.len() implies map_of(s).dom().contains((#[trigger] s[i]).0)
        && map_of(s)[s[i].0] == s[i].1 by {
        lemma_value_of(s, i);
    }
    assert(lists(s, map_of(s)));
    lemma_listing(s, map_of(s));
    assert forall|m: Map<Seq<char>, T>| lists(s, m) implies m == map_of(s) by {
        assert forall|k: Seq<char>| m.dom().contains(k) == map_of(s).dom().contains(k) by {
            if firsts(s).contains(k) {
                let i = choose|i: int| 0 <= i < firsts(s).len() && firsts(s)[i] == k;
                assert(s[i].0 == k);
            }
        }
        assert forall|k: Seq<char>| m.dom().contains(k) implies m[k] == map_of(s)[k] by {
            let i = choose|i: int| 0 <= i < firsts(s).len() && firsts(s)[i] == k;
            assert(s[i].0 == k);
            lemma_value_of(s, i);
        }
        assert(m =~= map_of(s));
    }
}

/// Keeping the good ones among the first `i + 1` keeps those among the first `i`,
/// and the next one if it is good.
pub proof fn lemma_filter_step<T>(s: Seq<T>, i: int, p: spec_fn(T) -> bool)
    requires
        0 <= i < s.len(),
    ensures
        s.take(i + 1).filter(p) == if p(s[i]) {
            s.take(i).filter(p).push(s[i])
        } else {
            s.take(i).filter(p)
        },
{
    reveal(Seq::filter);
    assert(s.take(i + 1).drop_last() =~= s.take(i));
}

/// Of nothing, nothing is kept; of the first all, what is kept of all.
pub proof fn lemma_filter_ends<T>(s: Seq<T>, p: spec_fn(T) -> bool)
    ensures
        s.take(0).filter(p) == Seq::<T>::empty(),
        s.take(s.len() as int).filter(p) == s.filter(p),
{
    reveal(Seq::filter);
    assert(s.take(0) =~= Seq::<T>::empty());
    assert(s.take(s.len() as int) =~= s);
}

/// What is kept of the first `n` comes first in what is kept of all.
pub proof fn lemma_filter_prefix<T>(s: Seq<T>, n: int, p: spec_fn(T) -> bool)
    requires
        0 <= n <= s.len(),
    ensures
        s.take(n).filter(p).is_prefix_of(s.filter(p)),
    decreases s.len(),
{
    reveal(Seq::filter);
    if n == s.len() {
        assert(s.take(n) =~= s);
        assert(s.filter(p).subrange(0, s.filter(p).len() as int) =~= s.filter(p));
    } else {
        let t = s.drop_last();
        lemma_filter_prefix(t, n, p);
        assert(t.take(n) =~= s.take(n));
        let part = s.take(n).filter(p);
        assert(part =~= t.filter(p).subrange(0, part.len() as int));
        assert(part =~= s.filter(p).subrange(0, part.len() as int));
    }
}

/// What is kept is what was there and is good.
pub proof fn lemma_filter_has<T>(s: Seq<T>, p: spec_fn(T) -> bool)
    ensures
        forall|x: T| s.filter(p).contains(x) <==> s.contains(x) && p(x),
    decreases s.len(),
{
    reveal(Seq::filter);
    if s.len() > 0 {
        let t = s.drop_last();
        lemma_filter_has(t, p);
        assert forall|x: T| s.filter(p).contains(x) <==> s.contains(x) && p(x) by {
            let kept = s.filter(p);
            if kept.contains(x) {
                let i = choose|i: int| 0 <= i < kept.len() && kept[i] == x;
                if p(s.last()) && i == kept.len() - 1 {
                    assert(s[s.len() - 1] == x);
                } else {
                    assert(t.filter(p)[i] == x);
                    assert(t.filter(p).contains(x));
                    assert(t.contains(x));
                    let j = choose|j: int| 0 <= j < t.len() && t[j] == x;
                    assert(s[j] == x);
                }
            }
            if s.contains(x) && p(x) {
                let j = choose|j: int| 0 <= j < s.len() && s[j] == x;
                if j == s.len() - 1 {
                    assert(kept[kept.len() - 1] == x);
                } else {
                    assert(t[j] == x);
                    assert(t.filter(p).contains(x));
                    let i = choose|i: int| 0 <= i < t.filter(p).len() && t.filter(p)[i] == x;
                    assert(kept[i] == x);
                }
            }
        }
    }
}

/// Leaving things out of an ascending list leaves it ascending.
pub proof fn lemma_filter_ascending<T>(s: Seq<(Seq<char>, T)>, p: spec_fn((Seq<char>, T)) -> bool)
    requires
        order::ascending(firsts(s)),
    ensures
        order::ascending(firsts(s.filter(p))),
    decreases s.len(),
{
    reveal(Seq::filter);
    if s.len() > 0 {
        let t = s.drop_last();
        let kept = t.filter(p);
        lemma_firsts(s);
        lemma_firsts(t);
        lemma_firsts(kept);
        lemma_firsts(s.filter(p));
        assert forall|i: int, j: int| 0 <= i < j < firsts(t).len() implies #[trigger] order::text_lt(
            firsts(t)[i],
            firsts(t)[j],
        ) by {
            assert(order::text_lt(firsts(s)[i], firsts(s)[j]));
        }
        lemma_filter_ascending(t, p);
        lemma_filter_has(t, p);
        if p(s.last()) {
            let all = s.filter(p);
            assert forall|i: int, j: int|
                0 <= i < j < firsts(all).len() implies #[trigger] order::text_lt(
                firsts(all)[i],
                firsts(all)[j],
            ) by {
                if j < kept.len() {
                    assert(order::text_lt(firsts(kept)[i], firsts(kept)[j]));
                } else {
                    assert(i < kept.len());
                    assert(kept.contains(kept[i]));
                    assert(t.contains(kept[i]));
                    let k = choose|k: int| 0 <= k < t.len() && t[k] == kept[i];
                    assert(order::text_lt(firsts(s)[k], firsts(s)[s.len() - 1]));
                }
            }
        }
    }
}

/// Keeping what is good of an ascending list keeps what is good of the map.
pub proof fn lemma_filter_map<T>(s: Seq<(Seq<char>, T)>, p: spec_fn((Seq<char>, T)) -> bool)
    requires
        order::ascending(firsts(s)),
    ensures
        order::ascending(firsts(s.filter(p))),
        map_of(s.filter(p)) == Map::new(
            |k: Seq<char>| map_of(s).dom().contains(k) && p((k, map_of(s)[k])),
            |k: Seq<char>| map_of(s)[k],
        ),
{
    let kept = s.filter(p);
    let m = map_of(s);
    let n = Map::new(
        |k: Seq<char>| m.dom().contains(k) && p((k, m[k])),
        |k: Seq<char>| m[k],
    );
    lemma_filter_ascending(s, p);
    lemma_filter_has(s, p);
    lemma_map_of(s);
    assert forall|i: int| 0 <= i < kept.len() implies n.dom().contains((#[trigger] kept[i]).0)
        && n[kept[i].0] == kept[i].1 by {
        assert(kept.contains(kept[i]));
        assert(s.contains(kept[i]) && p(kept[i]));
        let j = choose|j: int| 0 <= j < s.len() && s[j] == kept[i];
        assert(m.dom().contains(s[j].0) && m[s[j].0] == s[j].1);
    }
    assert forall|k: Seq<char>| #[trigger] n.dom().contains(k) implies firsts(kept).contains(k) by {
        assert(firsts(s).contains(k));
        let j = choose|j: int| 0 <= j < firsts(s).len() && firsts(s)[j] == k;
        assert(m.dom().contains(s[j].0) && m[s[j].0] == s[j].1);
        assert(s[j] == (k, m[k]));
        assert(s.contains(s[j]));
        assert(kept.contains(s[j]));
        let i = choose|i: int| 0 <= i < kept.len() && kept[i] == s[j];
        assert(firsts(kept)[i] == k);
    }
    assert(lists(kept, n));
    lemma_map_of(kept);
}

/// Looking at things before or after choosing among them makes no difference.
pub proof fn lemma_filter_view<A, B>(s: Seq<A>, f: spec_fn(A) -> B, p: spec_fn(B) -> bool)
    ensures
        s.filter(|a: A| p(f(a))).map_values(f) == s.map_values(f).filter(p),
    decreases s.len(),
{
    reveal(Seq::filter);
    let q = |a: A| p(f(a));
    if s.len() == 0 {
        assert(s.filter(q).map_values(f) =~= s.map_values(f).filter(p));
    } else {
        let t = s.drop_last();
        lemma_filter_view(t, f, p);
        assert(s.map_values(f).drop_last() =~= t.map_values(f));
        if q(s.last()) {
            assert(s.filter(q) =~= t.filter(q).push(s.last()));
            assert(s.filter(q).map_values(f) =~= t.filter(q).map_values(f).push(f(s.last())));
        }
    }
}

/// Takes the entries with these names out of the list.
pub(crate) fn drop_named<T>(list: &mut Vec<(String, T)>, names: &Vec<String>)
    ensures
        final(list)@ == old(list)@.filter(
            |p: (String, T)| !text::texts(names@).contains(p.0@),
        ),
{
    let ghost all = list@;
    let ghost good = |p: (String, T)| !text::texts(names@).contains(p.0@);
    let ghost mut seen: int = 0;
    let mut i: usize = 0;
    proof {
        lemma_filter_ends(all, good);
        assert(all.take(0).filter(good) + all.skip(0) =~= all);
    }
    while i < list.len()
        invariant
            0 <= seen <= all.len(),
            i <= list@.len(),
            i == all.take(seen).filter(good).len(),
            list@ == all.take(seen).filter(good) + all.skip(seen),
            good == (|p: (String, T)| !text::texts(names@).contains(p.0@)),
        decreases list.len() - i,
    {
        proof {
            lemma_filter_step(all, seen, good);
            assert(list@[i as int] == all[seen]);
        }
        if listed(names, list[i].0.as_str()) {
            list.remove(i);
            assert(list@ =~= all.take(seen + 1).filter(good) + all.skip(seen + 1));
        } else {
            i += 1;
            assert(list@ =~= all.take(seen + 1).filter(good) + all.skip(seen + 1));
        }
        proof {
            seen = seen + 1;
        }
    }
    proof {
        assert(seen == all.len());
        lemma_filter_ends(all, good);
        assert(list@ =~= all.filter(good));
    }
}

/// Takes the entries with these values out of the list.
pub(crate) fn drop_valued(list: &mut Vec<(String, String)>, values: &Vec<String>)
    ensures
        final(list)@ == old(list)@.filter(
            |p: (String, String)| !text::texts(values@).contains(p.1@),
        ),
{
    let ghost all = list@;
    let ghost good = |p: (String, String)| !text::texts(values@).contains(p.1@);
    let ghost mut seen: int = 0;
    let mut i: usize = 0;
    proof {
        lemma_filter_ends(all, good);
        assert(all.take(0).filter(good) + all.skip(0) =~= all);
    }
    while i < list.len()
        invariant
            0 <= seen <= all.len(),
            i <= list@.len(),
            i == all.take(seen).filter(good).len(),
            list@ == all.take(seen).filter(good) + all.skip(seen),
            good == (|p: (String, String)| !text::texts(values@).contains(p.1@)),
        decreases list.len() - i,
    {
        proof {
            lemma_filter_step(all, seen, good);
            assert(list@[i as int] == all[seen]);
        }
        if listed(values, list[i].1.as_str()) {
            list.remove(i);
            assert(list@ =~= all.take(seen + 1).filter(good) + all.skip(seen + 1));
        } else {
            i += 1;
            assert(list@ =~= all.take(seen + 1).filter(good) + all.skip(seen + 1));
        }
        proof {
            seen = seen + 1;
        }
    }
    proof {
        assert(seen == all.len());
        lemma_filter_ends(all, good);
        assert(list@ =~= all.filter(good));
    }
}

/// Whether the list has an entry with this name.
pub(crate) fn names<T>(list: &Vec<(String, T)>, name: &str) -> (r: bool)
    ensures
        r == exists|i: int| 0 <= i < list@.len() && (#[trigger] list@[i]).0@ == name@,
{
    let mut i: usize = 0;
    while i < list.len()
        invariant
            i <= list@.len(),
            forall|j: int| 0 <= j < i ==> (#[trigger] list@[j]).0@ != name@,
        decreases list.len() - i,
    {
        if same(list[i].0.as_str(), name) {
            return true;
        }
        i += 1;
    }
    false
}

/// Enters a name and its value at its place in an ascending list.
pub(crate) fn enter(list: &mut Vec<(String, String)>, name: String, value: String)
    requires
        order::ascending(firsts(text::pairs(old(list)@))),
        !map_of(text::pairs(old(list)@)).dom().contains(name@),
    ensures
        order::ascending(firsts(text::pairs(final(list)@))),
        map_of(text::pairs(final(list)@)) == map_of(text::pairs(old(list)@)).insert(
            name@,
            value@,
        ),
{
    let ghost s = text::pairs(list@);
    let ghost m = map_of(s);
    let mut at: usize = 0;
    while at < list.len() && at_most(list[at].0.as_str(), name.as_str())
        invariant
            at <= list@.len(),
            forall|j: int| 0 <= j < at ==> order::text_le(#[trigger] list@[j].0@, name@),
        decreases list.len() - at,
    {
        at += 1;
    }
    let ghost k = name@;
    let ghost x = value@;
    proof {
        order::lemma_text_order();
        lemma_map_of(s);
        lemma_firsts(s);
        assert forall|j: int| 0 <= j < s.len() implies #[trigger] s[j].0 != k by {
            assert(m.dom().contains(s[j].0));
        }
        assert forall|j: int| 0 <= j < at implies #[trigger] order::text_lt(s[j].0, k) by {
            assert(order::text_le(list@[j].0@, k));
        }
        assert forall|j: int| at <= j < s.len() implies #[trigger] order::text_lt(k, s[j].0) by {
            assert(!order::text_le(list@[at as int].0@, k));
            assert(order::text_le(k, s[at as int].0));
            if j > at {
                assert(order::text_lt(firsts(s)[at as int], firsts(s)[j]));
            }
        }
    }
    list.insert(at, (name, value));
    proof {
        let t = text::pairs(list@);
        let n = m.insert(k, x);
        assert(t =~= s.insert(at as int, (k, x)));
        lemma_firsts(t);
        assert forall|i: int, j: int| 0 <= i < j < firsts(t).len() implies #[trigger] order::text_lt(
            firsts(t)[i],
            firsts(t)[j],
        ) by {
            if i < at && j < at {
                assert(order::text_lt(firsts(s)[i], firsts(s)[j]));
            } else if i < at && j > at {
                assert(order::text_lt(firsts(s)[i], firsts(s)[j - 1]));
            } else if i > at {
                assert(order::text_lt(firsts(s)[i - 1], firsts(s)[j - 1]));
            } else if i < at {
                assert(order::text_lt(s[i].0, k));
            } else {
                assert(order::text_lt(k, s[j - 1].0));
            }
        }
        assert forall|i: int| 0 <= i < t.len() implies n.dom().contains((#[trigger] t[i]).0)
            && n[t[i].0] == t[i].1 by {
            if i < at {
                assert(m.dom().contains(s[i].0) && m[s[i].0] == s[i].1);
                assert(s[i].0 != k);
            } else if i > at {
                assert(m.dom().contains(s[i - 1].0) && m[s[i - 1].0] == s[i - 1].1);
                assert(s[i - 1].0 != k);
            }
        }
        assert forall|q: Seq<char>| #[trigger] n.dom().contains(q) implies firsts(t).contains(q) by {
            if q == k {
                assert(firsts(t)[at as int] == k);
            } else {
                assert(firsts(s).contains(q));
                let j = choose|j: int| 0 <= j < firsts(s).len() && firsts(s)[j] == q;
                if j < at {
                    assert(firsts(t)[j] == q);
                } else {
                    assert(firsts(t)[j + 1] == q);
                }
            }
        }
        assert(lists(t, n));
        lemma_map_of(t);
    }
}

} // verus!
