//! File paths as texts: how they are joined, compared and taken apart.

use vstd::prelude::*;

use crate::listing;
use crate::target;
use crate::text;
use crate::text::{same, split, starts, to_chars};

verus! {

/// The path `name` as seen from the directory `base`.
pub open spec fn joined_path(base: Seq<char>, name: Seq<char>) -> Seq<char> {
    if (name.len() > 0 && name[0] == '/') || base.len() == 0 {
        name
    } else if base.last() == '/' {
        base + name
    } else {
        base.push('/') + name
    }
}

/// The path `name` as seen from the directory `base`.
pub fn join(base: &str, name: &str) -> (r: String)
    ensures
        r@ == joined_path(base@, name@),
{
    let b = to_chars(base);
    let n = to_chars(name);
    if (n.len() > 0 && n[0] == '/') || b.len() == 0 {
        return name.to_string();
    }
    let mut out = base.to_string();
    if b[b.len() - 1] != '/' {
        out.push('/');
    }
    out.append(name);
    out
}

/// What counts in a piece of a path between slashes: nothing, and the single
/// dot, do not.
pub open spec fn is_step(piece: Seq<char>) -> bool {
    piece.len() > 0 && piece != "."@
}

/// The steps that a path takes.
pub open spec fn steps(path: Seq<char>) -> Seq<Seq<char>> {
    text::split_on(path, '/').filter(|piece: Seq<char>| is_step(piece))
}

/// Whether a path starts at the root.
pub open spec fn is_rooted(path: Seq<char>) -> bool {
    text::begins(path, "/"@)
}

/// Whether a path starts with a single dot.
pub open spec fn starts_here(path: Seq<char>) -> bool {
    path == "."@ || text::begins(path, "./"@)
}

/// Whether two paths are written alike but for doubled and trailing slashes and
/// single dots on the way.
pub open spec fn same_place(a: Seq<char>, b: Seq<char>) -> bool {
    &&& is_rooted(a) == is_rooted(b)
    &&& starts_here(a) == starts_here(b)
    &&& steps(a) == steps(b)
}

/// The last step of a path, unless it leads up.
pub open spec fn last_step(path: Seq<char>) -> Option<Seq<char>> {
    if steps(path).len() == 0 || steps(path).last() == ".."@ {
        None
    } else {
        Some(steps(path).last())
    }
}

fn take_steps(path: &str) -> (r: Vec<String>)
    ensures
        text::texts(r@) == steps(path@),
{
    let pieces = split(path, '/');
    let ghost all = text::split_on(path@, '/');
    let ghost good = |piece: Seq<char>| is_step(piece);
    let mut out: Vec<String> = Vec::new();
    let mut i: usize = 0;
    proof {
        listing::lemma_filter_ends(all, good);
        assert(text::texts(out@) =~= seq![]);
    }
    while i < pieces.len()
        invariant
            i <= pieces@.len(),
            all == text::texts(pieces@),
            good == (|piece: Seq<char>| is_step(piece)),
            text::texts(out@) == all.take(i as int).filter(good),
        decreases pieces.len() - i,
    {
        proof {
            listing::lemma_filter_step(all, i as int, good);
        }
        let ghost before = text::texts(out@);
        if !pieces[i].as_str().is_empty() && !same(pieces[i].as_str(), ".") {
            out.push(pieces[i].clone());
            assert(text::texts(out@) =~= before.push(all[i as int]));
        }
        i += 1;
    }
    proof {
        listing::lemma_filter_ends(all, good);
    }
    out
}

/// Whether two paths lead to the same place, as far as their texts show.
pub fn same_path(a: &str, b: &str) -> (r: bool)
    ensures
        r == same_place(a@, b@),
{
    let x = take_steps(a);
    let y = take_steps(b);
    if starts(a, "/") != starts(b, "/") {
        return false;
    }
    if (same(a, ".") || starts(a, "./")) != (same(b, ".") || starts(b, "./")) {
        return false;
    }
    if x.len() != y.len() {
        assert(text::texts(x@).len() != text::texts(y@).len());
        return false;
    }
    let mut i: usize = 0;
    while i < x.len()
        invariant
            i <= x@.len() == y@.len(),
            text::texts(x@) == steps(a@),
            text::texts(y@) == steps(b@),
            forall|j: int| 0 <= j < i ==> (#[trigger] x@[j])@ == y@[j]@,
        decreases x.len() - i,
    {
        if !same(x[i].as_str(), y[i].as_str()) {
            assert(text::texts(x@)[i as int] != text::texts(y@)[i as int]);
            return false;
        }
        i += 1;
    }
    assert(text::texts(x@) =~= text::texts(y@)) by {
        assert forall|j: int| 0 <= j < x@.len() implies text::texts(x@)[j] == text::texts(y@)[j] by {
            assert(x@[j]@ == y@[j]@);
        }
    }
    true
}

/// The last step of a path, unless it leads up.
pub fn file_name(path: &str) -> (r: Option<String>)
    ensures
        target::text_view(r) == last_step(path@),
{
    let all = take_steps(path);
    if all.len() == 0 {
        return None;
    }
    let last: usize = all.len() - 1;
    assert(steps(path@).last() == all@[last as int]@);
    if same(all[last].as_str(), "..") {
        None
    } else {
        Some(all[last].clone())
    }
}

/// Whether a path leads to `dir` or below it, as far as the texts show.
pub open spec fn within(path: Seq<char>, dir: Seq<char>) -> bool {
    is_rooted(path) == is_rooted(dir) && steps(dir).is_prefix_of(steps(path))
}

/// Whether a path leads to `dir` or below it, as far as the texts show.
pub fn is_within(path: &str, dir: &str) -> (r: bool)
    ensures
        r == within(path@, dir@),
{
    let x = take_steps(path);
    let y = take_steps(dir);
    if starts(path, "/") != starts(dir, "/") {
        return false;
    }
    assert(text::texts(x@).len() == x@.len());
    assert(text::texts(y@).len() == y@.len());
    if y.len() > x.len() {
        return false;
    }
    let mut i: usize = 0;
    while i < y.len()
        invariant
            i <= y@.len() <= x@.len(),
            text::texts(x@) == steps(path@),
            text::texts(y@) == steps(dir@),
            forall|j: int| 0 <= j < i ==> (#[trigger] x@[j])@ == y@[j]@,
        decreases y.len() - i,
    {
        if !same(x[i].as_str(), y[i].as_str()) {
            assert(steps(path@).subrange(0, y@.len() as int)[i as int] == x@[i as int]@);
            assert(steps(dir@)[i as int] == y@[i as int]@);
            return false;
        }
        i += 1;
    }
    assert(steps(dir@) =~= steps(path@).subrange(0, y@.len() as int)) by {
        assert forall|j: int| 0 <= j < y@.len() implies steps(dir@)[j] == steps(path@)[j] by {
            assert(x@[j]@ == y@[j]@);
            assert(text::texts(x@)[j] == x@[j]@);
            assert(text::texts(y@)[j] == y@[j]@);
        }
    }
    true
}

/// Of two places above a third, one is above the other.
pub proof fn lemma_within(path: Seq<char>, a: Seq<char>, b: Seq<char>)
    requires
        within(path, a),
        within(path, b),
    ensures
        within(a, b) || within(b, a),
{
    let p = steps(path);
    let x = steps(a);
    let y = steps(b);
    assert(x =~= p.subrange(0, x.len() as int));
    assert(y =~= p.subrange(0, y.len() as int));
    if x.len() <= y.len() {
        assert(x =~= y.subrange(0, x.len() as int));
    } else {
        assert(y =~= x.subrange(0, y.len() as int));
    }
}

} // verus!
