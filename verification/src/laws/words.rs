//! Laws of the texts that everything is read from: their order, their pieces,
//! their lines and words, numbers and paths.

use vstd::prelude::*;

use crate::number;
use crate::order;
use crate::paths;
use crate::text;

verus! {

/// A text comes before another, or is it, if the other goes on where it ends, or
/// has the greater character where they first differ.
pub proof fn law_order(a: Seq<char>, b: Seq<char>)
    ensures
        order::text_le(a, b) <==> (a.is_prefix_of(b) || exists|i: int|
            0 <= i < a.len() && i < b.len() && a.take(i) == b.take(i) && #[trigger] a[i] < b[i]),
        order::text_lt(a, b) <==> order::text_le(a, b) && a != b,
    decreases a.len(),
{
    if a.len() == 0 {
        assert(a =~= b.subrange(0, 0));
    } else if b.len() > 0 && a[0] == b[0] {
        let x = a.drop_first();
        let y = b.drop_first();
        law_order(x, y);
        if x.is_prefix_of(y) {
            assert forall|i: int| 0 <= i < a.len() implies a[i] == b[i] by {
                if i > 0 {
                    assert(x[i - 1] == y.subrange(0, x.len() as int)[i - 1]);
                }
            }
            assert(a =~= b.subrange(0, a.len() as int));
        }
        if a.is_prefix_of(b) {
            assert forall|i: int| 0 <= i < x.len() implies x[i] == y[i] by {
                assert(a[i + 1] == b.subrange(0, a.len() as int)[i + 1]);
            }
            assert(x =~= y.subrange(0, x.len() as int));
        }
        if exists|i: int|
            0 <= i < x.len() && i < y.len() && x.take(i) == y.take(i) && #[trigger] x[i] < y[i] {
            let i = choose|i: int|
                0 <= i < x.len() && i < y.len() && x.take(i) == y.take(i) && #[trigger] x[i] < y[i];
            assert forall|j: int| 0 <= j < i + 1 implies a[j] == b[j] by {
                if j > 0 {
                    assert(x.take(i)[j - 1] == y.take(i)[j - 1]);
                }
            }
            assert(a.take(i + 1) =~= b.take(i + 1));
            assert(a[i + 1] < b[i + 1]);
        }
        if exists|i: int|
            0 <= i < a.len() && i < b.len() && a.take(i) == b.take(i) && #[trigger] a[i] < b[i] {
            let i = choose|i: int|
                0 <= i < a.len() && i < b.len() && a.take(i) == b.take(i) && #[trigger] a[i] < b[i];
            assert forall|j: int| 0 <= j < i - 1 implies x[j] == y[j] by {
                assert(a.take(i)[j + 1] == b.take(i)[j + 1]);
            }
            assert(x.take(i - 1) =~= y.take(i - 1));
            assert(x[i - 1] < y[i - 1]);
        }
    } else if b.len() > 0 {
        assert(a.take(0) =~= b.take(0));
        if a.is_prefix_of(b) {
            assert(a[0] == b.subrange(0, a.len() as int)[0]);
        }
        if exists|i: int|
            0 <= i < a.len() && i < b.len() && a.take(i) == b.take(i) && #[trigger] a[i] < b[i] {
            let i = choose|i: int|
                0 <= i < a.len() && i < b.len() && a.take(i) == b.take(i) && #[trigger] a[i] < b[i];
            if i > 0 {
                assert(a.take(i)[0] == b.take(i)[0]);
            }
        }
    }
}

/// Texts with a separator between each two of them, from the first on.
pub proof fn law_joined(parts: Seq<Seq<char>>, part: Seq<char>, sep: Seq<char>)
    ensures
        text::joined(seq![], sep).len() == 0,
        text::joined(seq![part], sep) == part,
        parts.len() > 0 ==> text::joined(parts.push(part), sep) == text::joined(parts, sep) + sep
            + part,
{
    assert(parts.push(part).drop_last() =~= parts);
}

/// Of two runs of texts joined with a separator, the separator stands between.
pub proof fn law_joined_runs(a: Seq<Seq<char>>, b: Seq<Seq<char>>, sep: Seq<char>)
    requires
        a.len() > 0,
        b.len() > 0,
    ensures
        text::joined(a + b, sep) == text::joined(a, sep) + sep + text::joined(b, sep),
    decreases b.len(),
{
    let last = b.last();
    if b.len() == 1 {
        assert(b =~= seq![last]);
        assert(a + b =~= a.push(last));
        law_joined(a, last, sep);
    } else {
        let init = b.drop_last();
        law_joined_runs(a, init, sep);
        assert(a + b =~= (a + init).push(last));
        assert(b =~= init.push(last));
        law_joined(a + init, last, sep);
        law_joined(init, last, sep);
        assert(text::joined(a + b, sep) =~= text::joined(a, sep) + sep + text::joined(b, sep));
    }
}

/// A text is cut at every occurrence of a character and nowhere else: no piece
/// holds it, and the pieces with it between them are the text.
pub proof fn law_split(s: Seq<char>, c: char)
    ensures
        text::split_on(s, c).len() > 0,
        forall|i: int|
            0 <= i < text::split_on(s, c).len() ==> !(#[trigger] text::split_on(s, c)[i]).contains(c),
        text::joined(text::split_on(s, c), seq![c]) == s,
    decreases s.len(),
{
    let n = text::position(s, c);
    text::lemma_position(s, c);
    let pieces = text::split_on(s, c);
    if n == s.len() {
        assert(pieces =~= seq![s]);
    } else {
        let rest = s.skip(n + 1);
        let more = text::split_on(rest, c);
        law_split(rest, c);
        let head = s.take(n);
        assert(pieces =~= seq![head] + more);
        assert forall|i: int| 0 <= i < pieces.len() implies !(#[trigger] pieces[i]).contains(c) by {
            if i == 0 {
                if head.contains(c) {
                    let j = choose|j: int| 0 <= j < head.len() && head[j] == c;
                    assert(s[j] == c);
                }
            } else {
                assert(pieces[i] == more[i - 1]);
            }
        }
        law_joined_runs(seq![head], more, seq![c]);
        assert(s =~= head + seq![c] + rest);
    }
}

/// Two texts with the character between them are cut into the pieces of both.
pub proof fn law_split_runs(a: Seq<char>, b: Seq<char>, c: char)
    ensures
        text::split_on(a + seq![c] + b, c) == text::split_on(a, c) + text::split_on(b, c),
        !a.contains(c) ==> text::split_on(a, c) == seq![a],
    decreases a.len(),
{
    let s = a + seq![c] + b;
    let n = text::position(s, c);
    let k = text::position(a, c);
    text::lemma_position(s, c);
    text::lemma_position(a, c);
    assert(s[a.len() as int] == c);
    if n < k {
        assert(a[n] == s[n]);
    } else if k < n && k < a.len() {
        assert(s[k] == a[k]);
    }
    assert(n == k);
    if k == a.len() {
        assert(s.take(n) =~= a);
        assert(s.skip(n + 1) =~= b);
    } else {
        let rest = a.skip(k + 1);
        assert(s.take(n) =~= a.take(k));
        assert(s.skip(n + 1) =~= rest + seq![c] + b);
        law_split_runs(rest, b, c);
        assert(text::split_on(s, c) =~= text::split_on(a, c) + text::split_on(b, c));
    }
}

/// A line ends at a line feed, and a carriage return right before it is no part
/// of the line; what stands behind the last line feed is a line if it is anything.
pub proof fn law_lines(line: Seq<char>, rest: Seq<char>)
    requires
        !line.contains('\n'),
    ensures
        text::lines_of(line + seq!['\n'] + rest) == seq![
            if line.len() > 0 && line.last() == '\r' {
                line.drop_last()
            } else {
                line
            },
        ] + text::lines_of(rest),
        text::lines_of(line) == if line.len() == 0 {
            Seq::<Seq<char>>::empty()
        } else {
            seq![line]
        },
{
    let s = line + seq!['\n'] + rest;
    let n = text::position(s, '\n');
    text::lemma_position(s, '\n');
    text::lemma_position(line, '\n');
    assert(s[line.len() as int] == '\n');
    if n < line.len() {
        assert(line[n] == '\n');
        assert(line.contains('\n'));
    }
    assert(s.take(n) =~= line);
    assert(s.skip(n + 1) =~= rest);
}

/// The characters between the words of a line: space, tab, line feed and carriage
/// return are among them, and nothing that is printed in ASCII is.
pub proof fn law_spaces(c: char)
    ensures
        c == ' ' || c == '\t' || c == '\n' || c == '\r' ==> text::is_space(c),
        '!' <= c <= '~' ==> !text::is_space(c),
{
}

/// White space before a word is no part of it, a word goes on up to white space,
/// and nothing is passed over.
pub proof fn law_words(space: char, word: Seq<char>, rest: Seq<char>)
    requires
        text::is_space(space),
        word.len() > 0,
        forall|i: int| 0 <= i < word.len() ==> !text::is_space(#[trigger] word[i]),
        rest.len() == 0 || text::is_space(rest[0]),
    ensures
        text::words_of(Seq::<char>::empty()).len() == 0,
        text::words_of(seq![space] + rest) == text::words_of(rest),
        text::words_of(word + rest) == seq![word] + text::words_of(rest),
{
    let s = seq![space] + rest;
    assert(s.drop_first() =~= rest);
    let t = word + rest;
    lemma_word_len(word, rest);
    assert(t[0] == word[0]);
    assert(t.take(word.len() as int) =~= word);
    assert(t.skip(word.len() as int) =~= rest);
}

proof fn lemma_word_len(word: Seq<char>, rest: Seq<char>)
    requires
        forall|i: int| 0 <= i < word.len() ==> !text::is_space(#[trigger] word[i]),
        rest.len() == 0 || text::is_space(rest[0]),
    ensures
        text::word_len(word + rest) == word.len(),
    decreases word.len(),
{
    let s = word + rest;
    if word.len() == 0 {
        assert(s =~= rest);
    } else {
        let tail = word.drop_first();
        assert(s[0] == word[0]);
        assert(s.drop_first() =~= tail + rest);
        assert(forall|i: int| 0 <= i < tail.len() ==> #[trigger] tail[i] == word[i + 1]);
        lemma_word_len(tail, rest);
    }
}

/// Whether a text is white space throughout.
pub open spec fn is_blank(s: Seq<char>) -> bool {
    forall|i: int| 0 <= i < s.len() ==> text::is_space(#[trigger] s[i])
}

/// White space around a text that neither begins nor ends with it comes off, and
/// nothing else does.
pub proof fn law_trimmed(before: Seq<char>, core: Seq<char>, behind: Seq<char>)
    requires
        is_blank(before),
        is_blank(behind),
        core.len() > 0 ==> !text::is_space(core[0]) && !text::is_space(core.last()),
    ensures
        text::trimmed(before + core + behind) == core,
    decreases before.len() + behind.len(),
{
    let s = before + core + behind;
    if before.len() > 0 {
        assert(s[0] == before[0]);
        let rest = before.drop_first();
        assert(forall|i: int| 0 <= i < rest.len() ==> #[trigger] rest[i] == before[i + 1]);
        assert(s.drop_first() =~= rest + core + behind);
        law_trimmed(rest, core, behind);
    } else if core.len() == 0 {
        assert(s =~= behind);
        if behind.len() > 0 {
            let rest = behind.drop_first();
            assert(forall|i: int| 0 <= i < rest.len() ==> #[trigger] rest[i] == behind[i + 1]);
            assert(s.drop_first() =~= before + core + rest);
            law_trimmed(before, core, rest);
        } else {
            assert(s =~= core);
        }
    } else {
        assert(s[0] == core[0]);
        assert(text::trim_left(s) == s);
        lemma_trim_right(core, behind);
        assert(s =~= core + behind);
    }
}

proof fn lemma_trim_right(core: Seq<char>, behind: Seq<char>)
    requires
        is_blank(behind),
        core.len() > 0,
        !text::is_space(core.last()),
    ensures
        text::trim_right(core + behind) == core,
    decreases behind.len(),
{
    let s = core + behind;
    if behind.len() == 0 {
        assert(s =~= core);
    } else {
        let rest = behind.drop_last();
        assert(s.last() == behind[behind.len() - 1]);
        assert(s.drop_last() =~= core + rest);
        assert(forall|i: int| 0 <= i < rest.len() ==> #[trigger] rest[i] == behind[i]);
        lemma_trim_right(core, rest);
    }
}

/// Every text is what is left of it without the white space around it, with that
/// white space around it.
pub proof fn law_trimmed_parts(s: Seq<char>) -> (parts: (Seq<char>, Seq<char>))
    ensures
        is_blank(parts.0),
        is_blank(parts.1),
        s == parts.0 + text::trimmed(s) + parts.1,
        text::trimmed(s).len() > 0 ==> !text::is_space(text::trimmed(s)[0]) && !text::is_space(
            text::trimmed(s).last(),
        ),
{
    let left = lemma_left_part(s);
    let t = text::trim_left(s);
    let right = lemma_right_part(t);
    let core = text::trim_right(t);
    assert(s =~= left + core + right);
    if core.len() > 0 {
        assert(t[0] == core[0]);
    }
    (left, right)
}

proof fn lemma_left_part(s: Seq<char>) -> (part: Seq<char>)
    ensures
        is_blank(part),
        s == part + text::trim_left(s),
        text::trim_left(s).len() > 0 ==> !text::is_space(text::trim_left(s)[0]),
    decreases s.len(),
{
    if s.len() > 0 && text::is_space(s[0]) {
        let more = lemma_left_part(s.drop_first());
        let part = seq![s[0]] + more;
        assert(forall|i: int| 0 < i < part.len() ==> #[trigger] part[i] == more[i - 1]);
        let rest = s.drop_first();
        assert(s =~= seq![s[0]] + rest);
        assert(text::trim_left(s) == text::trim_left(rest));
        assert(s =~= part + text::trim_left(s)) by {
            assert(rest == more + text::trim_left(rest));
        }
        part
    } else {
        assert(s =~= Seq::<char>::empty() + s);
        Seq::empty()
    }
}

proof fn lemma_right_part(s: Seq<char>) -> (part: Seq<char>)
    ensures
        is_blank(part),
        s == text::trim_right(s) + part,
        text::trim_right(s).len() > 0 ==> !text::is_space(text::trim_right(s).last()),
    decreases s.len(),
{
    if s.len() > 0 && text::is_space(s.last()) {
        let more = lemma_right_part(s.drop_last());
        let part = more.push(s.last());
        assert(forall|i: int| 0 <= i < more.len() ==> #[trigger] part[i] == more[i]);
        let rest = s.drop_last();
        assert(s =~= rest.push(s.last()));
        assert(text::trim_right(s) == text::trim_right(rest));
        assert(s =~= text::trim_right(s) + part) by {
            assert(rest == text::trim_right(rest) + more);
        }
        part
    } else {
        assert(s =~= s + Seq::<char>::empty());
        Seq::empty()
    }
}

/// A text holds another if it is that other with something before and behind it.
pub proof fn law_occurs(before: Seq<char>, pat: Seq<char>, behind: Seq<char>, s: Seq<char>)
    ensures
        text::occurs(before + pat + behind, pat),
        text::begins(pat + behind, pat),
        text::ends(before + pat, pat),
        text::occurs(s, pat) ==> exists|a: Seq<char>, b: Seq<char>| s == #[trigger] (a + pat + b),
        text::begins(s, pat) ==> s == pat + s.skip(pat.len() as int),
        text::ends(s, pat) ==> s == s.take(s.len() - pat.len()) + pat,
{
    let whole = before + pat + behind;
    assert(whole.subrange(before.len() as int, (before.len() + pat.len()) as int) =~= pat);
    assert(text::occurs_at(whole, pat, before.len() as int));
    assert((pat + behind).subrange(0, pat.len() as int) =~= pat);
    assert((before + pat).subrange(before.len() as int, (before.len() + pat.len()) as int) =~= pat);
    if text::occurs(s, pat) {
        let at = choose|at: int| text::occurs_at(s, pat, at);
        let a = s.take(at);
        let b = s.skip(at + pat.len());
        assert(s.subrange(at, at + pat.len()) == pat);
        assert(s =~= a + s.subrange(at, at + pat.len()) + b);
        assert(s == a + pat + b);
    }
    if text::begins(s, pat) {
        assert(s.subrange(0, pat.len() as int) == pat);
        assert(s =~= s.subrange(0, pat.len() as int) + s.skip(pat.len() as int));
    }
    if text::ends(s, pat) {
        let at = s.len() - pat.len();
        assert(s.subrange(at, at + pat.len()) == pat);
        assert(s =~= s.take(at) + s.subrange(at, at + pat.len()));
    }
}

/// A number is written with the digit of its ones behind the number of its tens.
pub proof fn law_decimal(tens: nat, ones: nat)
    requires
        ones < 10,
    ensures
        number::decimal_of(ones) == seq![
            if ones == 0 {
                '0'
            } else if ones == 1 {
                '1'
            } else if ones == 2 {
                '2'
            } else if ones == 3 {
                '3'
            } else if ones == 4 {
                '4'
            } else if ones == 5 {
                '5'
            } else if ones == 6 {
                '6'
            } else if ones == 7 {
                '7'
            } else if ones == 8 {
                '8'
            } else {
                '9'
            },
        ],
        tens > 0 ==> number::decimal_of((10 * tens + ones) as nat) == number::decimal_of(tens)
            + number::decimal_of(ones),
{
    if tens > 0 {
        let n = (10 * tens + ones) as nat;
        assert(n / 10 == tens && n % 10 == ones);
        assert(number::decimal_of(n) =~= number::decimal_of(tens) + number::decimal_of(ones));
    }
}

/// The value of digits: ten times that of all but the last, and the last.
pub proof fn law_digits(s: Seq<char>, c: char)
    requires
        '0' <= c <= '9',
    ensures
        number::digits_value(Seq::<char>::empty()) == 0,
        number::digits_value(s.push(c)) == 10 * number::digits_value(s) + (c as int - '0' as int),
{
    assert(s.push(c).drop_last() =~= s);
}

/// Whether a text is made of the ten digits alone.
pub open spec fn are_digits(s: Seq<char>) -> bool {
    forall|i: int| 0 <= i < s.len() ==> '0' <= (#[trigger] s[i]) && s[i] <= '9'
}

/// A port is read from digits, at least one of them and perhaps behind a plus
/// sign, that write a number below 65536, and from nothing else.
pub proof fn law_port(n: nat, s: Seq<char>)
    ensures
        number::port_value(number::decimal_of(n)) == if n < 65536 {
            Some(n as u16)
        } else {
            None
        },
        ({
            let digits = if s.len() > 1 && s[0] == '+' {
                s.skip(1)
            } else {
                s
            };
            &&& digits.len() > 0 && are_digits(digits) && number::digits_value(digits) < 65536
                ==> number::port_value(s) == Some(number::digits_value(digits) as u16)
            &&& digits.len() == 0 || !are_digits(digits) || number::digits_value(digits) >= 65536
                ==> number::port_value(s) is None
        }),
{
    number::lemma_decimal_digits(n);
    let d = number::decimal_of(n);
    assert(number::is_digit(d[0]));
    assert(number::unsigned_part(d) == d);
    let digits = if s.len() > 1 && s[0] == '+' {
        s.skip(1)
    } else {
        s
    };
    assert(number::unsigned_part(s) == digits);
    if number::all_digits(digits) {
        assert forall|i: int| 0 <= i < digits.len() implies '0' <= (#[trigger] digits[i])
            && digits[i] <= '9' by {
            assert(number::is_digit(digits[i]));
        }
    }
    if are_digits(digits) {
        assert forall|i: int| 0 <= i < digits.len() implies number::is_digit(
            #[trigger] digits[i],
        ) by {
            assert('0' <= digits[i]);
        }
    }
}

/// A name in a directory: a slash stands between the two, but not behind one that
/// is there already.
pub proof fn law_joined_path(base: Seq<char>, name: Seq<char>)
    ensures
        base.len() > 0 && base.last() != '/' && !(name.len() > 0 && name[0] == '/')
            ==> paths::joined_path(base, name) == base + seq!['/'] + name,
        base.len() > 0 && base.last() == '/' && !(name.len() > 0 && name[0] == '/')
            ==> paths::joined_path(base, name) == base + name,
        base.len() == 0 || (name.len() > 0 && name[0] == '/') ==> paths::joined_path(base, name)
            == name,
{
    assert(base.push('/') =~= base + seq!['/']);
}

/// The steps of a path are its pieces between slashes, but for empty ones and
/// single dots. Two paths are the same place if they take the same steps from the
/// same start, and one is within another if it goes on from there.
pub proof fn law_paths(a: Seq<char>, b: Seq<char>)
    ensures
        paths::steps(a) == text::split_on(a, '/').filter(
            |piece: Seq<char>| piece.len() > 0 && piece != seq!['.'],
        ),
        paths::same_place(a, b) <==> {
            &&& (a.len() > 0 && a[0] == '/') == (b.len() > 0 && b[0] == '/')
            &&& (a == seq!['.'] || (a.len() >= 2 && a[0] == '.' && a[1] == '/')) == (b == seq!['.']
                || (b.len() >= 2 && b[0] == '.' && b[1] == '/'))
            &&& paths::steps(a) == paths::steps(b)
        },
        paths::within(a, b) <==> {
            &&& (a.len() > 0 && a[0] == '/') == (b.len() > 0 && b[0] == '/')
            &&& paths::steps(b).len() <= paths::steps(a).len()
            &&& paths::steps(a).take(paths::steps(b).len() as int) == paths::steps(b)
        },
        paths::last_step(a) == if paths::steps(a).len() == 0 || paths::steps(a).last() == seq![
            '.',
            '.',
        ] {
            None
        } else {
            Some(paths::steps(a).last())
        },
{
    lemma_starts(a);
    lemma_starts(b);
    reveal_strlit("..");
    assert(".."@ =~= seq!['.', '.']);
    let good = |piece: Seq<char>| paths::is_step(piece);
    let own = |piece: Seq<char>| piece.len() > 0 && piece != seq!['.'];
    assert(good =~= own);
    let x = paths::steps(a);
    let y = paths::steps(b);
    if y.len() <= x.len() {
        assert(x.take(y.len() as int) =~= x.subrange(0, y.len() as int));
    }
}

proof fn lemma_starts(a: Seq<char>)
    ensures
        "."@ == seq!['.'],
        paths::is_rooted(a) <==> a.len() > 0 && a[0] == '/',
        paths::starts_here(a) <==> a == seq!['.'] || (a.len() >= 2 && a[0] == '.' && a[1] == '/'),
{
    reveal_strlit(".");
    reveal_strlit("/");
    reveal_strlit("./");
    assert("."@ =~= seq!['.']);
    assert("/"@ =~= seq!['/']);
    assert("./"@ =~= seq!['.', '/']);
    if a.len() > 0 && a[0] == '/' {
        assert(a.subrange(0, 1) =~= "/"@);
    }
    if text::begins(a, "/"@) {
        assert(a.subrange(0, 1)[0] == '/');
    }
    if a.len() >= 2 && a[0] == '.' && a[1] == '/' {
        assert(a.subrange(0, 2) =~= "./"@);
    }
    if text::begins(a, "./"@) {
        assert(a.subrange(0, 2)[0] == '.' && a.subrange(0, 2)[1] == '/');
    }
}

/// Whether `c` is a capital of ASCII and `d` its small letter.
pub open spec fn is_small_of(c: char, d: char) -> bool {
    'A' <= c <= 'Z' && d as int == c as int + 32
}

/// Texts that differ in nothing but the case of ASCII letters are made the same.
pub proof fn law_lower(a: Seq<char>, b: Seq<char>)
    ensures
        text::ascii_lower(a) == text::ascii_lower(b) <==> a.len() == b.len() && forall|i: int|
            0 <= i < a.len() ==> #[trigger] a[i] == b[i] || is_small_of(a[i], b[i]) || is_small_of(
                b[i],
                a[i],
            ),
{
    let x = text::ascii_lower(a);
    let y = text::ascii_lower(b);
    if x == y {
        assert(x.len() == a.len() && y.len() == b.len());
        assert forall|i: int| 0 <= i < a.len() implies #[trigger] a[i] == b[i] || is_small_of(
            a[i],
            b[i],
        ) || is_small_of(b[i], a[i]) by {
            assert(x[i] == text::ascii_small(a[i]));
            assert(y[i] == text::ascii_small(b[i]));
        }
    }
    if a.len() == b.len() && forall|i: int|
        0 <= i < a.len() ==> #[trigger] a[i] == b[i] || is_small_of(a[i], b[i]) || is_small_of(
            b[i],
            a[i],
        ) {
        assert forall|i: int| 0 <= i < x.len() implies x[i] == y[i] by {
            assert(a[i] == b[i] || is_small_of(a[i], b[i]) || is_small_of(b[i], a[i]));
        }
        assert(x =~= y);
    }
}

} // verus!
