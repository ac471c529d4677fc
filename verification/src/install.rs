//! Installation: which shims to make, and the block that puts them first on the
//! search path in the start-up files of the shells.

use vstd::prelude::*;

use crate::listing;
use crate::number;
use crate::number::decimal;
use crate::paths;
use crate::paths::join;
use crate::registry;
use crate::registry::ToolName;
use crate::text;
use crate::text::{lines, listed, same, split, trim};

verus! {

/// The line that opens the block.
pub const MARKER_START: &'static str = "# >>> farthinder >>>";

/// The line that closes the block.
pub const MARKER_END: &'static str = "# <<< farthinder <<<";

/// Whether a line opens the block.
pub open spec fn opens(line: Seq<char>) -> bool {
    text::trimmed(line) == MARKER_START@
}

/// Whether a line closes the block.
pub open spec fn closes(line: Seq<char>) -> bool {
    text::trimmed(line) == MARKER_END@
}

/// The lines outside of blocks, where `inside` tells whether the first line
/// stands in a block.
pub open spec fn outside(lines: Seq<Seq<char>>, inside: bool) -> Seq<Seq<char>>
    decreases lines.len(),
{
    if lines.len() == 0 {
        seq![]
    } else if opens(lines[0]) {
        outside(lines.drop_first(), true)
    } else if closes(lines[0]) {
        outside(lines.drop_first(), false)
    } else if inside {
        outside(lines.drop_first(), true)
    } else {
        seq![lines[0]] + outside(lines.drop_first(), false)
    }
}

/// The lines without the empty ones at the start.
pub open spec fn without_leading_blanks(lines: Seq<Seq<char>>) -> Seq<Seq<char>>
    decreases lines.len(),
{
    if lines.len() > 0 && lines[0].len() == 0 {
        without_leading_blanks(lines.drop_first())
    } else {
        lines
    }
}

/// The lines of `content` that belong to its owner.
pub open spec fn own_lines(content: Seq<char>) -> Seq<Seq<char>> {
    without_leading_blanks(outside(text::lines_of(content), false))
}

/// `content` without blocks, without empty lines at its start and without the
/// end of its last line.
pub open spec fn stripped(content: Seq<char>) -> Seq<char> {
    text::joined(own_lines(content), "\n"@)
}

proof fn lemma_newline()
    ensures
        "\n"@ == seq!['\n'],
{
    reveal_strlit("\n");
    assert("\n"@ =~= seq!['\n']);
}

proof fn lemma_joined_push(parts: Seq<Seq<char>>, part: Seq<char>, sep: Seq<char>)
    ensures
        text::joined(parts.push(part), sep) == if parts.len() == 0 {
            part
        } else {
            text::joined(parts, sep) + sep + part
        },
{
    assert(parts.push(part).drop_last() =~= parts);
}

/// `content` without blocks, without empty lines at its start and without the
/// end of its last line.
pub fn strip_block(content: &str) -> (r: String)
    ensures
        r@ == stripped(content@),
{
    let all = lines(content);
    let ghost every = text::lines_of(content@);
    let mut result = String::new();
    let mut skipping = false;
    let mut started = false;
    let ghost mut kept: Seq<Seq<char>> = seq![];
    let mut i: usize = 0;
    proof {
        lemma_newline();
        assert(every.skip(0) =~= every);
        assert(kept + outside(every, false) =~= outside(every, false));
        assert(result@ =~= seq![]);
    }
    while i < all.len()
        invariant
            i <= all@.len(),
            every == text::texts(all@),
            "\n"@ == seq!['\n'],
            kept.len() > 0 ==> kept[0].len() > 0,
            started == (kept.len() > 0),
            result@ == text::joined(kept, "\n"@),
            without_leading_blanks(kept + outside(every.skip(i as int), skipping))
                == without_leading_blanks(outside(every, false)),
        decreases all.len() - i,
    {
        let line = &all[i];
        let ghost rest = every.skip(i as int);
        let ghost next = every.skip(i + 1);
        proof {
            assert(rest.drop_first() =~= next);
            assert(rest[0] == line@);
        }
        let bare = trim(line.as_str());
        if same(bare.as_str(), MARKER_START) {
            skipping = true;
        } else if same(bare.as_str(), MARKER_END) {
            skipping = false;
        } else if !skipping {
            proof {
                assert(outside(rest, false) =~= seq![line@] + outside(next, false));
                assert(kept + outside(rest, false) =~= kept.push(line@) + outside(next, false));
                lemma_joined_push(kept, line@, "\n"@);
            }
            if started {
                result.push('\n');
                result.append(line.as_str());
                proof {
                    assert(result@ =~= text::joined(kept, "\n"@) + "\n"@ + line@);
                    kept = kept.push(line@);
                }
            } else if !line.as_str().is_empty() {
                result.append(line.as_str());
                started = true;
                proof {
                    assert(kept =~= seq![]);
                    assert(result@ =~= line@);
                    kept = kept.push(line@);
                }
            } else {
                proof {
                    assert(kept =~= seq![]);
                    let before = kept + outside(rest, false);
                    assert(before =~= outside(rest, false));
                    assert(before[0].len() == 0);
                    assert(before.drop_first() =~= outside(next, false));
                    assert(kept + outside(next, false) =~= outside(next, false));
                }
            }
        }
        i += 1;
    }
    proof {
        assert(every.skip(all@.len() as int) =~= seq![]);
        assert(kept + outside(every.skip(all@.len() as int), skipping) =~= kept);
        assert(without_leading_blanks(kept) == kept);
    }
    result
}

/// A block with the given body.
pub open spec fn block_of(body: Seq<char>) -> Seq<char> {
    MARKER_START@ + "\n"@ + body + "\n"@ + MARKER_END@
}

/// `content` with this block, and no other, at its end.
pub open spec fn updated(content: Seq<char>, block: Seq<char>) -> Seq<char> {
    stripped(content) + "\n"@ + block + "\n"@
}

/// A block with the given body.
pub fn block(body: &str) -> (r: String)
    ensures
        r@ == block_of(body@),
{
    let mut out = MARKER_START.to_string();
    out.append("\n");
    out.append(body);
    out.append("\n");
    out.append(MARKER_END);
    out
}

/// What to write to a start-up file in place of `content`, so that it holds the block once.
pub fn inject(content: &str, block: &str) -> (r: String)
    ensures
        r@ == updated(content@, block@),
{
    let mut out = strip_block(content);
    out.append("\n");
    out.append(block);
    out.append("\n");
    out
}

/// What to write to a start-up file in place of `content`, if anything, so that
/// it holds no block.
pub fn eject(content: &str) -> (r: Option<String>)
    ensures
        match r {
            Some(cleaned) => cleaned@ == stripped(content@) && cleaned@ != content@,
            None => stripped(content@) == content@,
        },
{
    let cleaned = strip_block(content);
    if same(cleaned.as_str(), content) {
        None
    } else {
        Some(cleaned)
    }
}

/// Whether the line behind these lines stands in a block.
spec fn inside_after(lines: Seq<Seq<char>>, inside: bool) -> bool
    decreases lines.len(),
{
    if lines.len() == 0 {
        inside
    } else if opens(lines.last()) {
        true
    } else if closes(lines.last()) {
        false
    } else {
        inside_after(lines.drop_last(), inside)
    }
}

/// Whether no line of the body closes the block.
pub open spec fn fits_in_block(body: Seq<char>) -> bool {
    forall|i: int|
        0 <= i < text::lines_of(body + "\n"@).len() ==> !closes(
            #[trigger] text::lines_of(body + "\n"@)[i],
        )
}

/// Whether no line ends with a carriage return.
pub open spec fn ends_plainly(lines: Seq<Seq<char>>) -> bool {
    forall|i: int|
        0 <= i < lines.len() ==> (#[trigger] lines[i]).len() == 0 || lines[i].last() != '\r'
}

proof fn lemma_markers()
    ensures
        opens(MARKER_START@),
        !closes(MARKER_START@),
        closes(MARKER_END@),
        !opens(MARKER_END@),
        !MARKER_START@.contains('\n'),
        !MARKER_END@.contains('\n'),
        MARKER_START@.len() > 0 && MARKER_START@.last() != '\r',
        MARKER_END@.len() > 0 && MARKER_END@.last() != '\r',
        MARKER_END@.contains('<'),
{
    reveal_strlit("# >>> farthinder >>>");
    reveal_strlit("# <<< farthinder <<<");
    assert(MARKER_START@[2] == '>');
    assert(MARKER_END@[2] == '<');
}

proof fn lemma_line_cut(line: Seq<char>, rest: Seq<char>)
    requires
        !line.contains('\n'),
        line.len() == 0 || line.last() != '\r',
    ensures
        text::lines_of(line + "\n"@ + rest) == seq![line] + text::lines_of(rest),
{
    lemma_newline();
    let s = line + "\n"@ + rest;
    let n = text::position(s, '\n');
    text::lemma_position(s, '\n');
    assert(s[line.len() as int] == '\n');
    assert(n <= line.len());
    if n < line.len() {
        assert(line[n] == '\n');
        assert(line.contains('\n'));
    }
    assert(s.take(n) =~= line);
    assert(s.skip(n + 1) =~= rest);
}

proof fn lemma_lines_joined(lines: Seq<Seq<char>>, rest: Seq<char>)
    requires
        lines.len() > 0,
        ends_plainly(lines),
        forall|i: int| 0 <= i < lines.len() ==> !(#[trigger] lines[i]).contains('\n'),
    ensures
        text::lines_of(text::joined(lines, "\n"@) + "\n"@ + rest) == lines + text::lines_of(rest),
    decreases lines.len(),
{
    lemma_newline();
    let last = lines.last();
    assert(lines[lines.len() - 1] == last);
    lemma_line_cut(last, rest);
    if lines.len() == 1 {
        assert(lines =~= seq![last]);
    } else {
        let init = lines.drop_last();
        assert(forall|i: int| 0 <= i < init.len() ==> #[trigger] init[i] == lines[i]);
        lemma_lines_joined(init, last + "\n"@ + rest);
        assert(text::joined(lines, "\n"@) + "\n"@ + rest =~= text::joined(init, "\n"@) + "\n"@ + (
        last + "\n"@ + rest));
        assert(lines + text::lines_of(rest) =~= init + (seq![last] + text::lines_of(rest)));
    }
}

/// No line holds the end of one, and lines hold only what the text holds.
proof fn lemma_lines_hold(s: Seq<char>, i: int)
    requires
        0 <= i < text::lines_of(s).len(),
    ensures
        !text::lines_of(s)[i].contains('\n'),
        forall|c: char| #[trigger] text::lines_of(s)[i].contains(c) ==> s.contains(c),
    decreases s.len(),
{
    let line = text::lines_of(s)[i];
    let n = text::position(s, '\n');
    text::lemma_position(s, '\n');
    if n == s.len() {
        assert(line == s);
    } else if i == 0 {
        assert(line == text::drop_return(s.take(n)));
        assert forall|j: int| 0 <= j < line.len() implies #[trigger] line[j] == s[j] && s[j]
            != '\n' by {}
        assert forall|c: char| #[trigger] line.contains(c) implies s.contains(c) by {
            let j = choose|j: int| 0 <= j < line.len() && line[j] == c;
            assert(s[j] == c);
        }
        if line.contains('\n') {
            let j = choose|j: int| 0 <= j < line.len() && line[j] == '\n';
            assert(line[j] == s[j] && s[j] != '\n');
        }
    } else {
        let rest = s.skip(n + 1);
        assert(line == text::lines_of(rest)[i - 1]);
        lemma_lines_hold(rest, i - 1);
        assert forall|c: char| #[trigger] line.contains(c) implies s.contains(c) by {
            assert(rest.contains(c));
            let j = choose|j: int| 0 <= j < rest.len() && rest[j] == c;
            assert(s[n + 1 + j] == c);
        }
    }
}

/// The lines of two texts with the end of a line between them.
proof fn lemma_lines_split(a: Seq<char>, b: Seq<char>)
    ensures
        text::lines_of(a + "\n"@ + b) == text::lines_of(a + "\n"@) + text::lines_of(b),
    decreases a.len(),
{
    lemma_newline();
    let s = a + "\n"@ + b;
    let t = a + "\n"@;
    let n = text::position(s, '\n');
    let k = text::position(t, '\n');
    text::lemma_position(s, '\n');
    text::lemma_position(t, '\n');
    assert(s[a.len() as int] == '\n');
    assert(t[a.len() as int] == '\n');
    assert(n <= a.len() && k <= a.len());
    if n < k {
        assert(t[n] == s[n]);
    } else if k < n {
        assert(s[k] == t[k]);
    }
    assert(s.take(n) =~= t.take(n));
    if n == a.len() {
        assert(s.skip(n + 1) =~= b);
        let nothing = Seq::<char>::empty();
        assert(t.skip(n + 1) =~= nothing);
        assert(text::lines_of(nothing) =~= seq![]);
        assert(text::lines_of(t) =~= seq![text::drop_return(t.take(n))]);
        assert(text::lines_of(s) =~= text::lines_of(t) + text::lines_of(b));
    } else {
        let c = a.skip(n + 1);
        assert(s.skip(n + 1) =~= c + "\n"@ + b);
        assert(t.skip(n + 1) =~= c + "\n"@);
        lemma_lines_split(c, b);
        assert(text::lines_of(s) =~= text::lines_of(t) + text::lines_of(b));
    }
}

proof fn lemma_outside_app(a: Seq<Seq<char>>, b: Seq<Seq<char>>, inside: bool)
    ensures
        outside(a + b, inside) == outside(a, inside) + outside(b, inside_after(a, inside)),
    decreases b.len() + a.len(), a.len(),
{
    if a.len() == 0 {
        assert(a + b =~= b);
        assert(outside(a, inside) + outside(b, inside) =~= outside(b, inside));
    } else {
        let rest = a.drop_first();
        let state = if opens(a[0]) {
            true
        } else if closes(a[0]) {
            false
        } else {
            inside
        };
        assert((a + b).drop_first() =~= rest + b);
        assert((a + b)[0] == a[0]);
        lemma_outside_app(rest, b, state);
        lemma_after_first(a, inside, state);
        assert(outside(a + b, inside) =~= outside(a, inside) + outside(b, inside_after(a, inside)));
    }
}

proof fn lemma_after_first(a: Seq<Seq<char>>, inside: bool, state: bool)
    requires
        a.len() > 0,
        state == if opens(a[0]) {
            true
        } else if closes(a[0]) {
            false
        } else {
            inside
        },
    ensures
        inside_after(a, inside) == inside_after(a.drop_first(), state),
    decreases a.len(),
{
    if a.len() == 1 {
        assert(a.last() == a[0]);
        assert(a.drop_last() =~= seq![]);
        assert(a.drop_first() =~= seq![]);
        assert(inside_after(a.drop_last(), inside) == inside);
    } else {
        assert(a.drop_first().last() == a.last());
        assert(a.drop_first().drop_last() =~= a.drop_last().drop_first());
        assert(a.drop_last()[0] == a[0]);
        lemma_after_first(a.drop_last(), inside, state);
    }
}

proof fn lemma_outside_plain(lines: Seq<Seq<char>>)
    requires
        forall|i: int| 0 <= i < lines.len() ==> !opens(#[trigger] lines[i]) && !closes(lines[i]),
    ensures
        outside(lines, false) == lines,
        !inside_after(lines, false),
    decreases lines.len(),
{
    if lines.len() > 0 {
        let rest = lines.drop_first();
        assert(forall|i: int| 0 <= i < rest.len() ==> #[trigger] rest[i] == lines[i + 1]);
        lemma_outside_plain(rest);
        assert(lines =~= seq![lines[0]] + rest);
        lemma_after_first(lines, false, false);
    }
}

proof fn lemma_outside_of_block(lines: Seq<Seq<char>>)
    requires
        forall|i: int| 0 <= i < lines.len() ==> !closes(#[trigger] lines[i]),
    ensures
        outside(lines, true).len() == 0,
        inside_after(lines, true),
    decreases lines.len(),
{
    if lines.len() > 0 {
        let rest = lines.drop_first();
        assert(forall|i: int| 0 <= i < rest.len() ==> #[trigger] rest[i] == lines[i + 1]);
        lemma_outside_of_block(rest);
        lemma_after_first(lines, true, true);
    }
}

/// What is outside of blocks is neither end of one, and was there.
proof fn lemma_outside_holds(lines: Seq<Seq<char>>, inside: bool)
    ensures
        forall|i: int|
            0 <= i < outside(lines, inside).len() ==> {
                &&& !opens(#[trigger] outside(lines, inside)[i])
                &&& !closes(outside(lines, inside)[i])
                &&& lines.contains(outside(lines, inside)[i])
            },
    decreases lines.len(),
{
    if lines.len() > 0 {
        let rest = lines.drop_first();
        lemma_outside_holds(rest, true);
        lemma_outside_holds(rest, false);
        assert forall|x: Seq<char>| rest.contains(x) implies lines.contains(x) by {
            let j = choose|j: int| 0 <= j < rest.len() && rest[j] == x;
            assert(lines[j + 1] == x);
        }
        assert(lines.contains(lines[0]));
        let kept = outside(lines, inside);
        assert forall|i: int| 0 <= i < kept.len() implies !opens(#[trigger] kept[i]) && !closes(
            kept[i],
        ) && lines.contains(kept[i]) by {
            if opens(lines[0]) || (!closes(lines[0]) && inside) {
                assert(kept[i] == outside(rest, true)[i]);
                assert(rest.contains(outside(rest, true)[i]));
            } else if closes(lines[0]) {
                assert(kept[i] == outside(rest, false)[i]);
                assert(rest.contains(outside(rest, false)[i]));
            } else if i > 0 {
                assert(kept[i] == outside(rest, false)[i - 1]);
                assert(rest.contains(outside(rest, false)[i - 1]));
            }
        }
    }
}

proof fn lemma_blanks(lines: Seq<Seq<char>>)
    ensures
        forall|i: int|
            0 <= i < without_leading_blanks(lines).len() ==> lines.contains(
                #[trigger] without_leading_blanks(lines)[i],
            ),
        without_leading_blanks(without_leading_blanks(lines)) == without_leading_blanks(lines),
    decreases lines.len(),
{
    if lines.len() > 0 && lines[0].len() == 0 {
        let rest = lines.drop_first();
        lemma_blanks(rest);
        assert forall|i: int| 0 <= i < without_leading_blanks(lines).len() implies lines.contains(
            #[trigger] without_leading_blanks(lines)[i],
        ) by {
            let x = without_leading_blanks(rest)[i];
            assert(rest.contains(x));
            let j = choose|j: int| 0 <= j < rest.len() && rest[j] == x;
            assert(lines[j + 1] == x);
        }
    }
}

/// No line that opens or closes a block stays.
pub proof fn lemma_no_block_stays(content: Seq<char>)
    ensures
        forall|i: int|
            0 <= i < own_lines(content).len() ==> !opens(#[trigger] own_lines(content)[i])
                && !closes(own_lines(content)[i]) && !own_lines(content)[i].contains('\n'),
{
    let all = text::lines_of(content);
    let kept = outside(all, false);
    let own = own_lines(content);
    lemma_outside_holds(all, false);
    lemma_blanks(kept);
    assert forall|i: int| 0 <= i < own.len() implies !opens(#[trigger] own[i]) && !closes(own[i])
        && !own[i].contains('\n') by {
        assert(kept.contains(own[i]));
        let j = choose|j: int| 0 <= j < kept.len() && kept[j] == own[i];
        assert(all.contains(kept[j]));
        let k = choose|k: int| 0 <= k < all.len() && all[k] == kept[j];
        lemma_lines_hold(content, k);
    }
}

/// A block leaves what is its owner's in a start-up file as it was, and taking
/// it out gives the same as if it had never been put in.
pub proof fn lemma_block_comes_out(content: Seq<char>, body: Seq<char>)
    requires
        fits_in_block(body),
        ends_plainly(own_lines(content)),
    ensures
        own_lines(updated(content, block_of(body))) == own_lines(content),
        stripped(updated(content, block_of(body))) == stripped(content),
{
    lemma_newline();
    lemma_markers();
    let own = own_lines(content);
    let tail = block_of(body) + "\n"@;
    let inner = text::lines_of(body + "\n"@);
    let block_lines = text::lines_of(tail);
    assert(tail =~= MARKER_START@ + "\n"@ + (body + "\n"@ + (MARKER_END@ + "\n"@ + seq![])));
    lemma_line_cut(MARKER_START@, body + "\n"@ + (MARKER_END@ + "\n"@ + seq![]));
    lemma_lines_split(body, MARKER_END@ + "\n"@ + seq![]);
    lemma_line_cut(MARKER_END@, seq![]);
    assert(block_lines =~= seq![MARKER_START@] + (inner + (seq![MARKER_END@] + seq![])));
    lemma_no_block_stays(content);
    lemma_blanks(outside(text::lines_of(content), false));
    // Nothing of the block is outside of it.
    assert(outside(block_lines, false).len() == 0) by {
        let end = seq![MARKER_END@] + Seq::<Seq<char>>::empty();
        assert(block_lines.drop_first() =~= inner + end);
        lemma_outside_of_block(inner);
        lemma_outside_app(inner, end, true);
        let nothing = Seq::<Seq<char>>::empty();
        assert(end[0] == MARKER_END@);
        assert(end.drop_first() =~= nothing);
        assert(outside(nothing, false) =~= nothing);
        assert(outside(end, true) =~= nothing);
    }
    let whole = updated(content, block_of(body));
    if own.len() == 0 {
        assert(stripped(content) =~= seq![]);
        lemma_line_cut(seq![], tail);
        assert(whole =~= Seq::<char>::empty() + "\n"@ + tail);
        let blank = seq![Seq::<char>::empty()];
        assert(text::lines_of(whole) =~= blank + block_lines);
        assert(outside(text::lines_of(whole), false) =~= if opens(seq![]) || closes(seq![]) {
            outside(text::lines_of(whole), false)
        } else {
            blank
        }) by {
            assert(text::lines_of(whole).drop_first() =~= block_lines);
        }
        assert(text::trimmed(seq![]) =~= seq![]);
        assert(!opens(seq![]) && !closes(seq![]));
        let nothing = Seq::<Seq<char>>::empty();
        assert(blank.drop_first() =~= nothing);
        assert(without_leading_blanks(nothing) =~= nothing);
        assert(without_leading_blanks(blank) =~= seq![]);
    } else {
        lemma_lines_joined(own, tail);
        assert(whole =~= text::joined(own, "\n"@) + "\n"@ + tail);
        lemma_outside_plain(own);
        lemma_outside_app(own, block_lines, false);
        assert(outside(text::lines_of(whole), false) =~= own);
    }
}

/// Putting a block in twice is the same as putting the second in once.
pub proof fn lemma_reinstall(content: Seq<char>, first: Seq<char>, second: Seq<char>)
    requires
        fits_in_block(first),
        ends_plainly(own_lines(content)),
    ensures
        updated(updated(content, block_of(first)), block_of(second)) == updated(
            content,
            block_of(second),
        ),
{
    lemma_block_comes_out(content, first);
}

proof fn lemma_trimmed_holds(s: Seq<char>)
    ensures
        forall|c: char| #[trigger] text::trimmed(s).contains(c) ==> s.contains(c),
{
    lemma_left_holds(s);
    lemma_right_holds(text::trim_left(s));
}

proof fn lemma_left_holds(s: Seq<char>)
    ensures
        forall|c: char| #[trigger] text::trim_left(s).contains(c) ==> s.contains(c),
    decreases s.len(),
{
    if s.len() > 0 && text::is_space(s[0]) {
        let rest = s.drop_first();
        lemma_left_holds(rest);
        assert forall|c: char| #[trigger] text::trim_left(s).contains(c) implies s.contains(c) by {
            assert(text::trim_left(rest).contains(c));
            assert(rest.contains(c));
            let j = choose|j: int| 0 <= j < rest.len() && rest[j] == c;
            assert(s[j + 1] == c);
        }
    }
}

proof fn lemma_right_holds(s: Seq<char>)
    ensures
        forall|c: char| #[trigger] text::trim_right(s).contains(c) ==> s.contains(c),
    decreases s.len(),
{
    if s.len() > 0 && text::is_space(s.last()) {
        let rest = s.drop_last();
        lemma_right_holds(rest);
        assert forall|c: char| #[trigger] text::trim_right(s).contains(c) implies s.contains(c) by {
            assert(text::trim_right(rest).contains(c));
            assert(rest.contains(c));
            let j = choose|j: int| 0 <= j < rest.len() && rest[j] == c;
            assert(s[j] == c);
        }
    }
}

/// A body without an opening angle bracket fits in a block.
pub proof fn lemma_plain_body_fits(body: Seq<char>)
    requires
        !body.contains('<'),
    ensures
        fits_in_block(body),
{
    lemma_newline();
    lemma_markers();
    let s = body + "\n"@;
    assert forall|i: int| 0 <= i < text::lines_of(s).len() implies !closes(
        #[trigger] text::lines_of(s)[i],
    ) by {
        let line = text::lines_of(s)[i];
        lemma_lines_hold(s, i);
        lemma_trimmed_holds(line);
        if closes(line) {
            assert(text::trimmed(line).contains('<'));
            assert(line.contains('<'));
            assert(s.contains('<'));
            let j = choose|j: int| 0 <= j < s.len() && s[j] == '<';
            assert(body[j] == '<');
        }
    }
}

/// A start-up file that holds these lines, none of them an end of a block and
/// the first not empty, gives them back, but for the end of the last.
pub proof fn lemma_own_file_stays(lines: Seq<Seq<char>>)
    requires
        lines.len() > 0,
        lines[0].len() > 0,
        ends_plainly(lines),
        forall|i: int|
            0 <= i < lines.len() ==> !(#[trigger] lines[i]).contains('\n') && !opens(lines[i])
                && !closes(lines[i]),
    ensures
        stripped(text::joined(lines, "\n"@) + "\n"@) == text::joined(lines, "\n"@),
{
    let content = text::joined(lines, "\n"@) + "\n"@;
    let nothing = Seq::<char>::empty();
    lemma_lines_joined(lines, nothing);
    assert(content =~= content + nothing);
    assert(text::lines_of(nothing) =~= seq![]);
    assert(text::lines_of(content) =~= lines);
    lemma_outside_plain(lines);
}

/// What sets the search path in most shells.
pub const EXPORT_BODY: &'static str = "export PATH=\"$HOME/.farthinder/bin:$PATH\"";

/// What sets the search path in interactive `zsh`.
pub const PATH_ARRAY_BODY: &'static str = "path=(\"$HOME/.farthinder/bin\" $path)\nexport PATH";

/// What sets the search path in `fish`.
pub const FISH_BODY: &'static str = "fish_add_path --prepend --move \"$HOME/.farthinder/bin\"";

/// What the data directory holds until there is data.
pub const PLACEHOLDER_CONTENT: &'static str =
    "# farthinder data directory\n\nThis directory will contain vulnerability databases and other runtime data.\n";

/// What there is to say once everything is removed.
pub const REMOVED: &'static str =
    "Removed farthinder.\nRun `exec $SHELL` or open a new terminal to deactivate.\n";

/// A start-up file of a shell, and the block that belongs in it.
#[derive(Debug, Clone)]
pub struct RcTarget {
    pub path: String,
    pub block: String,
}

/// The start-up files and their blocks.
pub open spec fn target_views(v: Seq<RcTarget>) -> Seq<(Seq<char>, Seq<char>)> {
    v.map_values(|t: RcTarget| (t.path@, t.block@))
}

/// The start-up files under a home directory, each with its block.
pub open spec fn targets(home: Seq<char>) -> Seq<(Seq<char>, Seq<char>)> {
    seq![
        (paths::joined_path(home, ".zshenv"@), block_of(EXPORT_BODY@)),
        (paths::joined_path(home, ".zshrc"@), block_of(PATH_ARRAY_BODY@)),
        (paths::joined_path(home, ".bash_profile"@), block_of(EXPORT_BODY@)),
        (paths::joined_path(home, ".bashrc"@), block_of(EXPORT_BODY@)),
        (paths::joined_path(home, ".config/fish/config.fish"@), block_of(FISH_BODY@)),
    ]
}

/// The start-up files under a home directory, each with its block.
pub fn rc_targets(home: &str) -> (r: Vec<RcTarget>)
    ensures
        target_views(r@) == targets(home@),
{
    let r = vec![
        RcTarget { path: join(home, ".zshenv"), block: block(EXPORT_BODY) },
        RcTarget { path: join(home, ".zshrc"), block: block(PATH_ARRAY_BODY) },
        RcTarget { path: join(home, ".bash_profile"), block: block(EXPORT_BODY) },
        RcTarget { path: join(home, ".bashrc"), block: block(EXPORT_BODY) },
        RcTarget { path: join(home, ".config/fish/config.fish"), block: block(FISH_BODY) },
    ];
    assert(target_views(r@) =~= targets(home@));
    r
}

/// Uninstalling undoes what installing did to a start-up file, however often it
/// was done.
pub proof fn lemma_uninstall_undoes_install(home: Seq<char>, i: int, content: Seq<char>)
    requires
        0 <= i < targets(home).len(),
        ends_plainly(own_lines(content)),
    ensures
        ({
            let block = targets(home)[i].1;
            &&& stripped(updated(content, block)) == stripped(content)
            &&& updated(updated(content, block), block) == updated(content, block)
        }),
{
    reveal_strlit("export PATH=\"$HOME/.farthinder/bin:$PATH\"");
    reveal_strlit("path=(\"$HOME/.farthinder/bin\" $path)\nexport PATH");
    reveal_strlit("fish_add_path --prepend --move \"$HOME/.farthinder/bin\"");
    lemma_plain_body_fits(EXPORT_BODY@);
    lemma_plain_body_fits(PATH_ARRAY_BODY@);
    lemma_plain_body_fits(FISH_BODY@);
    lemma_block_comes_out(content, EXPORT_BODY@);
    lemma_block_comes_out(content, PATH_ARRAY_BODY@);
    lemma_block_comes_out(content, FISH_BODY@);
}

/// Where everything is installed under a home directory.
pub open spec fn base_dir(home: Seq<char>) -> Seq<char> {
    paths::joined_path(home, ".farthinder"@)
}

/// Where the shims are under a home directory.
pub open spec fn shim_directory(home: Seq<char>) -> Seq<char> {
    paths::joined_path(base_dir(home), "bin"@)
}

/// Where the data is under a home directory.
pub open spec fn data_directory(home: Seq<char>) -> Seq<char> {
    paths::joined_path(base_dir(home), "data"@)
}

/// Where everything is installed under a home directory.
pub fn home_dir(home: &str) -> (r: String)
    ensures
        r@ == base_dir(home@),
{
    join(home, ".farthinder")
}

/// Where the shims are under a home directory.
pub fn shim_dir(home: &str) -> (r: String)
    ensures
        r@ == shim_directory(home@),
{
    join(home_dir(home).as_str(), "bin")
}

/// Where the data is under a home directory.
pub fn data_dir(home: &str) -> (r: String)
    ensures
        r@ == data_directory(home@),
{
    join(home_dir(home).as_str(), "data")
}

/// Where a command would be in each directory of a search path.
pub open spec fn places(path_var: Seq<char>, command: Seq<char>) -> Seq<Seq<char>> {
    text::split_on(path_var, ':').map_values(|dir: Seq<char>| paths::joined_path(dir, command))
}

/// Where a command would be in each directory of a search path.
pub fn candidates(path_var: &str, command: &str) -> (r: Vec<String>)
    ensures
        text::texts(r@) == places(path_var@, command@),
{
    let dirs = split(path_var, ':');
    let ghost want = places(path_var@, command@);
    let mut out: Vec<String> = Vec::new();
    let mut i: usize = 0;
    while i < dirs.len()
        invariant
            i <= dirs@.len(),
            text::texts(dirs@) == text::split_on(path_var@, ':'),
            want == places(path_var@, command@),
            text::texts(out@) == want.take(i as int),
        decreases dirs.len() - i,
    {
        let ghost before = text::texts(out@);
        assert(text::texts(dirs@)[i as int] == dirs@[i as int]@);
        out.push(join(dirs[i].as_str(), command));
        assert(text::texts(out@) =~= before.push(want[i as int]));
        assert(want.take(i + 1) =~= before.push(want[i as int]));
        i += 1;
    }
    assert(want.take(dirs@.len() as int) =~= want);
    out
}

/// Whether a command is in some directory of a search path, where `existing`
/// holds the places at which there is something.
pub open spec fn on_path(
    path_var: Seq<char>,
    existing: Seq<Seq<char>>,
    command: Seq<char>,
) -> bool {
    exists|i: int|
        0 <= i < places(path_var, command).len() && existing.contains(
            #[trigger] places(path_var, command)[i],
        )
}

/// The commands of the tools on a search path, in the order of the tools.
pub open spec fn tools_on_path(path_var: Seq<char>, existing: Seq<Seq<char>>) -> Seq<Seq<char>> {
    registry::all_tools().filter(
        |t: ToolName| on_path(path_var, existing, registry::command_of(t)),
    ).map_values(|t: ToolName| registry::command_of(t))
}

fn is_on_path(path_var: &str, existing: &Vec<String>, command: &str) -> (r: bool)
    ensures
        r == on_path(path_var@, text::texts(existing@), command@),
{
    let all = candidates(path_var, command);
    let ghost want = places(path_var@, command@);
    let mut i: usize = 0;
    while i < all.len()
        invariant
            i <= all@.len(),
            text::texts(all@) == want,
            want == places(path_var@, command@),
            forall|j: int|
                0 <= j < i ==> !text::texts(existing@).contains(#[trigger] want[j]),
        decreases all.len() - i,
    {
        assert(want[i as int] == all@[i as int]@);
        if listed(existing, all[i].as_str()) {
            return true;
        }
        i += 1;
    }
    assert(want.len() == all@.len());
    false
}

/// The commands of the tools on a search path, in the order of the tools, where
/// `existing` holds the places at which there is something.
pub fn scan_path_for_tools(path_var: &str, existing: &Vec<String>) -> (r: Vec<String>)
    ensures
        text::texts(r@) == tools_on_path(path_var@, text::texts(existing@)),
{
    let tools = ToolName::all();
    let ghost all = registry::all_tools();
    let ghost good = |t: ToolName|
        on_path(path_var@, text::texts(existing@), registry::command_of(t));
    let ghost name = |t: ToolName| registry::command_of(t);
    let mut out: Vec<String> = Vec::new();
    let mut i: usize = 0;
    proof {
        listing::lemma_filter_ends(all, good);
        assert(text::texts(out@) =~= all.take(0).filter(good).map_values(name));
    }
    while i < tools.len()
        invariant
            i <= tools@.len(),
            tools@ == all,
            good == (|t: ToolName|
                on_path(path_var@, text::texts(existing@), registry::command_of(t))),
            name == (|t: ToolName| registry::command_of(t)),
            text::texts(out@) == all.take(i as int).filter(good).map_values(name),
        decreases tools.len() - i,
    {
        proof {
            listing::lemma_filter_step(all, i as int, good);
        }
        let ghost kept = all.take(i as int).filter(good);
        let ghost before = text::texts(out@);
        let command = tools[i].command();
        if is_on_path(path_var, existing, command) {
            out.push(command.to_string());
            assert(text::texts(out@) =~= before.push(command@));
            assert(kept.push(all[i as int]).map_values(name) =~= kept.map_values(name).push(
                command@,
            ));
        }
        i += 1;
    }
    proof {
        listing::lemma_filter_ends(all, good);
    }
    out
}

/// Why nothing can be installed.
#[derive(Debug, Clone, Copy, PartialEq, Eq, Structural)]
pub enum InstallError {
    /// There is no tool to make a shim for.
    NoTools,
}

impl InstallError {
    /// What there is to say of it.
    pub fn message(&self) -> (r: &'static str)
        ensures
            r@ == "no supported package managers found on your PATH"@,
    {
        match self {
            InstallError::NoTools => "no supported package managers found on your PATH",
        }
    }
}

/// The shims to make for the tools that were found, if any were.
pub fn shims(home: &str, found: &Vec<String>) -> (r: Result<Vec<String>, InstallError>)
    ensures
        match r {
            Ok(shims) => found@.len() > 0 && text::texts(shims@) == text::texts(found@).map_values(
                |name: Seq<char>| paths::joined_path(shim_directory(home@), name),
            ),
            Err(e) => found@.len() == 0 && e == InstallError::NoTools,
        },
{
    if found.len() == 0 {
        return Err(InstallError::NoTools);
    }
    let dir = shim_dir(home);
    let ghost want = text::texts(found@).map_values(
        |name: Seq<char>| paths::joined_path(shim_directory(home@), name),
    );
    let mut out: Vec<String> = Vec::new();
    let mut i: usize = 0;
    while i < found.len()
        invariant
            i <= found@.len(),
            dir@ == shim_directory(home@),
            want == text::texts(found@).map_values(
                |name: Seq<char>| paths::joined_path(shim_directory(home@), name),
            ),
            text::texts(out@) == want.take(i as int),
        decreases found.len() - i,
    {
        let ghost before = text::texts(out@);
        out.push(join(dir.as_str(), found[i].as_str()));
        assert(text::texts(out@) =~= before.push(want[i as int]));
        assert(want.take(i + 1) =~= before.push(want[i as int]));
        i += 1;
    }
    assert(want.take(found@.len() as int) =~= want);
    Ok(out)
}

/// Whether a shim has to be made: it is left alone only if it is there and
/// already leads to this program.
pub fn needs_shim(exists: bool, leads_here: bool) -> (r: bool)
    ensures
        r == !(exists && leads_here),
{
    !(exists && leads_here)
}

/// What there is to say once the shims are made.
pub open spec fn report(found: Seq<Seq<char>>, shim_dir: Seq<char>) -> Seq<char> {
    "\nCreated shims for "@ + number::decimal_of(found.len()) + " tools:\n  "@ + text::joined(
        found,
        ", "@,
    ) + "\n\nShim directory: "@ + shim_dir
        + "\nRun `exec $SHELL` or open a new terminal to activate.\n"@
}

/// What there is to say once the shims are made.
pub fn install_report(found: &Vec<String>, shim_dir: &str) -> (r: String)
    ensures
        r@ == report(text::texts(found@), shim_dir@),
{
    let mut out = "\nCreated shims for ".to_string();
    out.append(decimal(found.len()).as_str());
    out.append(" tools:\n  ");
    out.append(text::join(found, ", ").as_str());
    out.append("\n\nShim directory: ");
    out.append(shim_dir);
    out.append("\nRun `exec $SHELL` or open a new terminal to activate.\n");
    assert(text::texts(found@).len() == found@.len());
    out
}

} // verus!
