//! Laws of a run: which program a shim stands for, and what is shown.

use vstd::prelude::*;

use super::words;
use crate::install;
use crate::interceptor;
use crate::number;
use crate::order;
use crate::paths;
use crate::printer;
use crate::registry;
use crate::registry::{Ecosystem, RegistryStats};
use crate::sandbox;
use crate::text;

verus! {

proof fn lemma_filter_app<T>(a: Seq<T>, b: Seq<T>, p: spec_fn(T) -> bool)
    ensures
        (a + b).filter(p) == a.filter(p) + b.filter(p),
    decreases b.len(),
{
    reveal(Seq::filter);
    if b.len() == 0 {
        assert(a + b =~= a);
        assert(a.filter(p) + b.filter(p) =~= a.filter(p));
    } else {
        let init = b.drop_last();
        lemma_filter_app(a, init, p);
        assert((a + b).drop_last() =~= a + init);
        assert((a + b).last() == b.last());
        assert((a + b).filter(p) =~= a.filter(p) + b.filter(p));
    }
}

proof fn lemma_filter_none<T>(a: Seq<T>, p: spec_fn(T) -> bool)
    requires
        forall|i: int| 0 <= i < a.len() ==> !p(#[trigger] a[i]),
    ensures
        a.filter(p).len() == 0,
    decreases a.len(),
{
    reveal(Seq::filter);
    if a.len() > 0 {
        let init = a.drop_last();
        assert(forall|i: int| 0 <= i < init.len() ==> #[trigger] init[i] == a[i]);
        assert(a.last() == a[a.len() - 1]);
        lemma_filter_none(init, p);
    }
}

proof fn lemma_filter_first<T>(a: Seq<T>, i: int, p: spec_fn(T) -> bool)
    requires
        0 <= i < a.len(),
        p(a[i]),
        forall|k: int| 0 <= k < i ==> !p(#[trigger] a[k]),
    ensures
        a.filter(p) == seq![a[i]] + a.skip(i + 1).filter(p),
{
    reveal(Seq::filter);
    let before = a.take(i);
    let one = seq![a[i]];
    let behind = a.skip(i + 1);
    assert(forall|k: int| 0 <= k < before.len() ==> #[trigger] before[k] == a[k]);
    lemma_filter_none(before, p);
    assert(a =~= before + one + behind);
    lemma_filter_app(before + one, behind, p);
    lemma_filter_app(before, one, p);
    assert(one.drop_last() =~= Seq::<T>::empty());
    assert(Seq::<T>::empty().filter(p) =~= Seq::<T>::empty());
    assert(one.last() == a[i]);
    assert(one.filter(p) =~= one);
    assert(before.filter(p) + one =~= one);
}

/// Whether a directory of a search path holds something of this name.
pub open spec fn holds(dir: Seq<char>, name: Seq<char>, existing: Seq<Seq<char>>) -> bool {
    existing.contains(paths::joined_path(dir, name))
}

/// A shim stands for the first program of its name on the search path that is not
/// in the directory of the shims, as long as that directory is there only once:
/// the first of the name, or the second if the first is the shim. Where there is
/// none, it stands for nothing.
pub proof fn law_target(
    path_var: Seq<char>,
    shim_dir: Seq<char>,
    name: Seq<char>,
    existing: Seq<Seq<char>>,
    i: int,
    j: int,
)
    ensures
        ({
            let dirs = text::split_on(path_var, ':');
            let target = interceptor::target_of(path_var, shim_dir, name, existing);
            let first = 0 <= i < dirs.len() && holds(dirs[i], name, existing) && forall|k: int|
                0 <= k < i ==> !holds(#[trigger] dirs[k], name, existing);
            let second = i < j < dirs.len() && holds(dirs[j], name, existing) && forall|k: int|
                i < k < j ==> !holds(#[trigger] dirs[k], name, existing);
            &&& first && !paths::same_place(dirs[i], shim_dir) ==> target == Some(
                paths::joined_path(dirs[i], name),
            )
            &&& first && paths::same_place(dirs[i], shim_dir) && second ==> target == Some(
                paths::joined_path(dirs[j], name),
            )
            &&& first && paths::same_place(dirs[i], shim_dir) && (forall|k: int|
                i < k < dirs.len() ==> !holds(#[trigger] dirs[k], name, existing))
                ==> target is None
            &&& (forall|k: int|
                0 <= k < dirs.len() ==> !holds(#[trigger] dirs[k], name, existing))
                ==> target is None
        }),
{
    let dirs = text::split_on(path_var, ':');
    let good = |dir: Seq<char>| existing.contains(paths::joined_path(dir, name));
    let all = interceptor::holders(path_var, name, existing);
    assert(all == dirs.filter(good));
    let first = 0 <= i < dirs.len() && holds(dirs[i], name, existing) && forall|k: int|
        0 <= k < i ==> !holds(#[trigger] dirs[k], name, existing);
    if first {
        lemma_filter_first(dirs, i, good);
        let rest = dirs.skip(i + 1);
        assert(all[0] == dirs[i]);
        if i < j < dirs.len() && holds(dirs[j], name, existing) && forall|k: int|
            i < k < j ==> !holds(#[trigger] dirs[k], name, existing) {
            assert(rest[j - i - 1] == dirs[j]);
            assert forall|k: int| 0 <= k < j - i - 1 implies !good(#[trigger] rest[k]) by {
                assert(rest[k] == dirs[i + 1 + k]);
            }
            lemma_filter_first(rest, j - i - 1, good);
            assert(all[1] == dirs[j]);
        }
        if forall|k: int| i < k < dirs.len() ==> !holds(#[trigger] dirs[k], name, existing) {
            assert forall|k: int| 0 <= k < rest.len() implies !good(#[trigger] rest[k]) by {
                assert(rest[k] == dirs[i + 1 + k]);
            }
            lemma_filter_none(rest, good);
            assert(all.len() == 1);
        }
    }
    if forall|k: int| 0 <= k < dirs.len() ==> !holds(#[trigger] dirs[k], name, existing) {
        assert forall|k: int| 0 <= k < dirs.len() implies !good(#[trigger] dirs[k]) by {}
        lemma_filter_none(dirs, good);
    }
}

/// A command is looked for in each directory of the search path, in order.
pub proof fn law_places(path_var: Seq<char>, command: Seq<char>, i: int)
    ensures
        install::places(path_var, command).len() == text::split_on(path_var, ':').len(),
        0 <= i < text::split_on(path_var, ':').len() ==> install::places(path_var, command)[i]
            == paths::joined_path(text::split_on(path_var, ':')[i], command),
{
}

proof fn lemma_steps_behind(dir: Seq<char>, name: Seq<char>)
    requires
        name.len() > 0,
        !name.contains('/'),
        name != "."@,
    ensures
        paths::steps(name) == seq![name],
        paths::steps(dir + seq!['/'] + name) == paths::steps(dir).push(name),
        paths::steps(dir + seq!['/']) == paths::steps(dir),
{
    reveal(Seq::filter);
    let good = |piece: Seq<char>| paths::is_step(piece);
    let nothing = Seq::<char>::empty();
    words::law_split_runs(name, nothing, '/');
    words::law_split_runs(dir, name, '/');
    words::law_split_runs(dir, nothing, '/');
    words::law_split_runs(nothing, nothing, '/');
    assert(dir + seq!['/'] + nothing =~= dir + seq!['/']);
    let a = text::split_on(dir, '/');
    let one = seq![name];
    let blank = seq![nothing];
    lemma_filter_app(a, one, good);
    lemma_filter_app(a, blank, good);
    let none = Seq::<Seq<char>>::empty();
    assert(one.drop_last() =~= none);
    assert(blank.drop_last() =~= none);
    assert(none.filter(good) =~= none);
    assert(one.last() == name && blank.last() == nothing);
    assert(one.filter(good) =~= one);
    assert(blank.filter(good) =~= none);
    assert(a.filter(good) + one =~= a.filter(good).push(name));
    assert(a.filter(good) + none =~= a.filter(good));
}

/// The name that a shim was called by is the last part of its path; without a path
/// there is no name, and a path that leads up has none.
pub proof fn law_called_as(dir: Seq<char>, name: Seq<char>)
    requires
        name.len() > 0,
        !name.contains('/'),
        name != "."@,
        name != ".."@,
    ensures
        interceptor::called_as(Some(name)) == Ok::<Seq<char>, interceptor::Failure>(name),
        interceptor::called_as(Some(dir + seq!['/'] + name)) == Ok::<
            Seq<char>,
            interceptor::Failure,
        >(name),
        interceptor::called_as(None) == Err::<Seq<char>, interceptor::Failure>(
            interceptor::Failure::NoName,
        ),
        interceptor::called_as(Some(Seq::<char>::empty())) == Err::<
            Seq<char>,
            interceptor::Failure,
        >(interceptor::Failure::InvalidName),
        interceptor::called_as(Some(dir + seq!['/'] + ".."@)) == Err::<
            Seq<char>,
            interceptor::Failure,
        >(interceptor::Failure::InvalidName),
{
    reveal_strlit("..");
    reveal_strlit(".");
    assert(".."@.len() == 2 && ".."@[0] == '.' && ".."@[1] == '.');
    assert("."@.len() == 1);
    assert(!".."@.contains('/')) by {
        if ".."@.contains('/') {
            let i = choose|i: int| 0 <= i < ".."@.len() && ".."@[i] == '/';
            assert(i == 0 || i == 1);
        }
    }
    lemma_steps_behind(dir, name);
    lemma_steps_behind(dir, ".."@);
    reveal(Seq::filter);
    let nothing = Seq::<char>::empty();
    words::law_split_runs(nothing, nothing, '/');
    let good = |piece: Seq<char>| paths::is_step(piece);
    let blank = seq![nothing];
    let none = Seq::<Seq<char>>::empty();
    assert(blank.drop_last() =~= none);
    assert(none.filter(good) =~= none);
    assert(blank.last() == nothing);
    assert(blank.filter(good) =~= none);
    assert(paths::steps(nothing) =~= none);
}

/// A slash at the end of a directory leads nowhere else, and two names in one
/// directory are two places.
pub proof fn law_same_place(dir: Seq<char>, name: Seq<char>, other: Seq<char>)
    requires
        dir.len() > 0,
        name.len() > 0,
        !name.contains('/'),
        name != "."@,
        other.len() > 0,
        !other.contains('/'),
        other != "."@,
    ensures
        paths::same_place(dir, dir),
        paths::same_place(dir + seq!['/'], dir),
        paths::same_place(dir + seq!['/'] + name, dir + seq!['/'] + other) ==> name == other,
        !paths::same_place(dir + seq!['/'] + name, dir),
{
    lemma_steps_behind(dir, name);
    lemma_steps_behind(dir, other);
    reveal_strlit("/");
    reveal_strlit("./");
    reveal_strlit(".");
    assert("/"@.len() == 1 && "./"@.len() == 2 && "."@.len() == 1);
    let s = dir + seq!['/'];
    assert(s[0] == dir[0]);
    assert(s.subrange(0, 1) =~= dir.subrange(0, 1));
    if dir.len() >= 2 {
        assert(s.subrange(0, 2) =~= dir.subrange(0, 2));
        assert(dir != "."@);
        assert(s != "."@);
    } else {
        if dir == "."@ {
            assert(s =~= "./"@);
            assert(s.subrange(0, 2) =~= "./"@);
        } else {
            if s.subrange(0, 2) == "./"@ {
                assert(s.subrange(0, 2)[0] == '.');
                assert(dir =~= "."@);
            }
        }
    }
    let d = paths::steps(dir);
    if d.push(name) == d.push(other) {
        assert(d.push(name).last() == d.push(other).last());
    }
    assert(d.push(name).len() != d.len());
}

/// What there is to say of a call that goes nowhere.
pub proof fn law_messages(name: Seq<char>)
    ensures
        interceptor::message_of(interceptor::Failure::NoName) == "no argv[0]"@,
        interceptor::message_of(interceptor::Failure::InvalidName) == "invalid exe name"@,
        interceptor::message_of(interceptor::Failure::NoTarget(name))
            == "no target executable for "@ + name,
        interceptor::message_of(interceptor::Failure::NoSandbox)
            == "sandbox is required but no kernel enforcer is available on this platform"@,
{
}

/// The files of a run are named after the process, so that two runs do not share
/// them.
pub proof fn law_temporary_files(temp: Seq<char>, pid: u32, other: u32)
    requires
        temp.len() > 0,
        temp.last() != '/',
    ensures
        interceptor::certificate_path(temp, pid) == temp + "/farthinder/ca-"@ + number::decimal_of(
            pid as nat,
        ) + ".pem"@,
        sandbox::macos::profile_location(temp, pid) == temp + "/farthinder/sbpl-"@
            + number::decimal_of(pid as nat) + ".sbpl"@,
        interceptor::certificate_path(temp, pid) == interceptor::certificate_path(temp, other)
            ==> pid == other,
{
    reveal_strlit("farthinder");
    reveal_strlit("ca-");
    reveal_strlit(".pem");
    reveal_strlit("sbpl-");
    reveal_strlit(".sbpl");
    reveal_strlit("/farthinder/ca-");
    reveal_strlit("/farthinder/sbpl-");
    let base = paths::joined_path(temp, "farthinder"@);
    words::law_joined_path(temp, "farthinder"@);
    assert(base.last() == 'r');
    let digits = number::decimal_of(pid as nat);
    words::law_joined_path(base, "ca-"@ + digits + ".pem"@);
    words::law_joined_path(base, "sbpl-"@ + digits + ".sbpl"@);
    assert(interceptor::certificate_path(temp, pid) =~= temp + "/farthinder/ca-"@ + digits
        + ".pem"@);
    assert(sandbox::macos::profile_location(temp, pid) =~= temp + "/farthinder/sbpl-"@ + digits
        + ".sbpl"@);
    let others = number::decimal_of(other as nat);
    words::law_joined_path(base, "ca-"@ + others + ".pem"@);
    if interceptor::certificate_path(temp, pid) == interceptor::certificate_path(temp, other) {
        let a = interceptor::certificate_path(temp, pid);
        let b = interceptor::certificate_path(temp, other);
        let n = (temp + "/farthinder/ca-"@).len() as int;
        assert(b =~= temp + "/farthinder/ca-"@ + others + ".pem"@);
        assert(a.subrange(n, a.len() - 4) =~= digits);
        assert(b.subrange(n, b.len() - 4) =~= others);
        number::lemma_decimal_digits(pid as nat);
        number::lemma_decimal_digits(other as nat);
    }
}

/// Wherever the directory for temporary files is, the files of a run are in the
/// same places under it.
pub proof fn law_temporary_files_anywhere(temp: Seq<char>, pid: u32)
    ensures
        interceptor::certificate_path(temp, pid) == paths::joined_path(
            paths::joined_path(temp, "farthinder"@),
            "ca-"@ + number::decimal_of(pid as nat) + ".pem"@,
        ),
        sandbox::macos::profile_location(temp, pid) == paths::joined_path(
            paths::joined_path(temp, "farthinder"@),
            "sbpl-"@ + number::decimal_of(pid as nat) + ".sbpl"@,
        ),
{
}

/// Up to three versions are named, in order; of more, the first three, and how
/// many more there are.
pub proof fn law_version_list(versions: Seq<Seq<char>>, sorted: Seq<Seq<char>>)
    requires
        sorted.to_multiset() == versions.to_multiset(),
        forall|i: int, j: int|
            0 <= i < j < sorted.len() ==> #[trigger] order::text_le(sorted[i], sorted[j]),
    ensures
        printer::version_list(versions) == if versions.len() <= 3 {
            text::joined(sorted, ", "@)
        } else {
            text::joined(seq![sorted[0], sorted[1], sorted[2]], ", "@) + ", and "@
                + number::decimal_of((versions.len() - 3) as nat) + " more"@
        },
{
    let le = |a: Seq<char>, b: Seq<char>| order::text_le(a, b);
    order::lemma_text_order();
    versions.lemma_sort_by_ensures(le);
    order::lemma_in_order(versions);
    versions.to_multiset_ensures();
    sorted.to_multiset_ensures();
    assert(vstd::relations::sorted_by(sorted, le));
    vstd::seq_lib::lemma_sorted_unique(sorted, order::in_order(versions), le);
    assert(sorted.len() == versions.len());
    if versions.len() > 3 {
        assert(sorted.take(3) =~= seq![sorted[0], sorted[1], sorted[2]]);
    }
}

/// Every version that was withheld is counted.
pub proof fn law_version_count(all: Seq<registry::Quarantined>, one: registry::Quarantined)
    ensures
        printer::version_count(Seq::<registry::Quarantined>::empty()) == 0,
        printer::version_count(all.push(one)) == printer::version_count(all) + one.versions.len(),
{
    assert(all.push(one).drop_last() =~= all);
}

/// The summary tells how many packages were checked; then, if there are any, what
/// was withheld of each package; then the downloads that were blocked; then the
/// connections that were not looked into. Nothing is left out.
pub proof fn law_summary(stats: RegistryStats, i: int, j: int)
    ensures
        ({
            let lines = printer::summary_lines(stats);
            let packages = registry::quarantined_views(stats.packages_quarantined@);
            let blocked = stats.downloads_blocked@;
            let checked = stats.packages_checked as nat;
            let tunneled = stats.connections_tunneled as nat;
            let q: int = if packages.len() == 0 {
                0
            } else {
                (packages.len() + 1) as int
            };
            let b: int = if blocked.len() == 0 {
                0
            } else {
                (blocked.len() + 1) as int
            };
            &&& lines.len() == 1 + q + b + (if tunneled == 0 {
                0int
            } else {
                1
            })
            &&& lines[0] == "[bold]"@ + number::decimal_of(checked) + "[/] "@ + (if checked == 1 {
                "package"@
            } else {
                "packages"@
            }) + " checked"@
            &&& packages.len() > 0 ==> lines[1] == "[bold blue]"@ + number::decimal_of(
                printer::version_count(packages),
            ) + "[/] versions quarantined across [bold blue]"@ + number::decimal_of(packages.len())
                + "[/] "@ + (if packages.len() == 1 {
                "package"@
            } else {
                "packages"@
            })
            &&& 0 <= i < packages.len() ==> lines[2 + i] == "[dim]  "@ + packages[i].name + " ("@
                + printer::version_list(packages[i].versions) + ")[/]"@
            &&& blocked.len() > 0 ==> lines[1 + q] == "[bold red]"@ + number::decimal_of(
                blocked.len(),
            ) + "[/] downloads blocked"@
            &&& 0 <= j < blocked.len() ==> lines[2 + q + j] == "[dim]  "@ + blocked[j].package@
                + "@"@ + blocked[j].version@ + "[/]"@
            &&& tunneled > 0 ==> lines[1 + q + b] == "[dim]"@ + number::decimal_of(tunneled)
                + " connections passed through[/]"@
        }),
{
}

/// The colour of a run tells the worst of it, and the registry is named.
pub proof fn law_colours(stats: RegistryStats)
    ensures
        stats.downloads_blocked@.len() > 0 ==> printer::border_color(stats) == "red"@,
        stats.downloads_blocked@.len() == 0 && stats.packages_quarantined@.len() > 0
            ==> printer::border_color(stats) == "blue"@,
        stats.downloads_blocked@.len() == 0 && stats.packages_quarantined@.len() == 0
            ==> printer::border_color(stats) == "green"@,
        printer::label(Ecosystem::Javascript) == "npm"@,
        printer::label(Ecosystem::Python) == "PyPI"@,
{
}

} // verus!
