//! What is shown before and after a run, in markup.

use vstd::prelude::*;

use crate::number;
use crate::number::decimal;
use crate::order;
use crate::order::sort;
use crate::registry;
use crate::registry::{BlockedItem, Ecosystem, QuarantinedPackage, RegistryStats};
use crate::text;
use crate::text::{join, join_first};

verus! {

/// A frame with a title, of some colour, around some content.
#[derive(Debug, Clone)]
pub struct Panel {
    pub title: String,
    pub border_color: String,
    pub content: String,
}

/// A frame with a title, of some colour, around some content.
pub struct PanelView {
    pub title: Seq<char>,
    pub border_color: Seq<char>,
    pub content: Seq<char>,
}

impl View for Panel {
    type V = PanelView;

    open spec fn view(&self) -> PanelView {
        PanelView {
            title: self.title@,
            border_color: self.border_color@,
            content: self.content@,
        }
    }
}

/// What the registry of a family is called.
pub open spec fn label(ecosystem: Ecosystem) -> Seq<char> {
    match ecosystem {
        Ecosystem::Javascript => "npm"@,
        Ecosystem::Python => "PyPI"@,
    }
}

/// What is shown before a run.
pub fn banner(ecosystem: Ecosystem) -> (r: Panel)
    ensures
        r@ == (PanelView {
            title: "Farthinder Active"@,
            border_color: "cyan"@,
            content: "Protecting [bold cyan]"@ + label(ecosystem) + "[/]"@,
        }),
{
    let mut content = "Protecting [bold cyan]".to_string();
    content.append(
        match ecosystem {
            Ecosystem::Javascript => "npm",
            Ecosystem::Python => "PyPI",
        },
    );
    content.append("[/]");
    Panel { title: "Farthinder Active".to_string(), border_color: "cyan".to_string(), content }
}

/// The versions in ascending order, the first three of them by name.
pub open spec fn version_list(versions: Seq<Seq<char>>) -> Seq<char> {
    let sorted = order::in_order(versions);
    if sorted.len() <= 3 {
        text::joined(sorted, ", "@)
    } else {
        text::joined(sorted.take(3), ", "@) + ", and "@ + number::decimal_of(
            (sorted.len() - 3) as nat,
        ) + " more"@
    }
}

/// The versions in ascending order, the first three of them by name.
pub fn format_quarantined_versions(versions: &Vec<String>) -> (r: String)
    ensures
        r@ == version_list(text::texts(versions@)),
{
    let sorted = sort(versions);
    assert(text::texts(sorted@).len() == sorted@.len());
    if sorted.len() <= 3 {
        join(&sorted, ", ")
    } else {
        let mut out = join_first(&sorted, 3, ", ");
        out.append(", and ");
        out.append(decimal(sorted.len() - 3).as_str());
        out.append(" more");
        out
    }
}

/// It does not matter in which order versions were withheld.
pub proof fn lemma_list_ignores_order(a: Seq<Seq<char>>, b: Seq<Seq<char>>)
    requires
        a.to_multiset() == b.to_multiset(),
    ensures
        version_list(a) == version_list(b),
{
    let le = |x: Seq<char>, y: Seq<char>| order::text_le(x, y);
    order::lemma_text_order();
    a.lemma_sort_by_ensures(le);
    b.lemma_sort_by_ensures(le);
    vstd::seq_lib::lemma_sorted_unique(order::in_order(a), order::in_order(b), le);
}

/// `package`, or more of them.
pub open spec fn packages(n: nat) -> Seq<char> {
    if n == 1 {
        "package"@
    } else {
        "packages"@
    }
}

fn packages_word(n: usize) -> (r: &'static str)
    ensures
        r@ == packages(n as nat),
{
    if n == 1 {
        "package"
    } else {
        "packages"
    }
}

/// How many versions of all the packages were withheld.
pub open spec fn version_count(packages: Seq<registry::Quarantined>) -> nat
    decreases packages.len(),
{
    if packages.len() == 0 {
        0
    } else {
        version_count(packages.drop_last()) + packages.last().versions.len()
    }
}

/// The line on how many packages were checked.
pub open spec fn checked_line(checked: nat) -> Seq<char> {
    "[bold]"@ + number::decimal_of(checked) + "[/] "@ + packages(checked) + " checked"@
}

/// The line on how many versions were withheld.
pub open spec fn quarantined_line(all: Seq<registry::Quarantined>) -> Seq<char> {
    "[bold blue]"@ + number::decimal_of(version_count(all))
        + "[/] versions quarantined across [bold blue]"@ + number::decimal_of(all.len()) + "[/] "@
        + packages(all.len())
}

/// The line on a package with versions withheld.
pub open spec fn package_line(package: registry::Quarantined) -> Seq<char> {
    "[dim]  "@ + package.name + " ("@ + version_list(package.versions) + ")[/]"@
}

/// The lines on what was withheld, if anything was.
pub open spec fn quarantined_lines(all: Seq<registry::Quarantined>) -> Seq<Seq<char>> {
    if all.len() == 0 {
        seq![]
    } else {
        seq![quarantined_line(all)] + all.map_values(|p: registry::Quarantined| package_line(p))
    }
}

/// The line on a blocked download.
pub open spec fn blocked_line(item: BlockedItem) -> Seq<char> {
    "[dim]  "@ + item.package@ + "@"@ + item.version@ + "[/]"@
}

/// The lines on blocked downloads, if there were any.
pub open spec fn blocked_lines(all: Seq<BlockedItem>) -> Seq<Seq<char>> {
    if all.len() == 0 {
        seq![]
    } else {
        seq!["[bold red]"@ + number::decimal_of(all.len()) + "[/] downloads blocked"@]
            + all.map_values(|item: BlockedItem| blocked_line(item))
    }
}

/// The line on connections that were not looked into, if there were any.
pub open spec fn tunneled_lines(tunneled: nat) -> Seq<Seq<char>> {
    if tunneled == 0 {
        seq![]
    } else {
        seq!["[dim]"@ + number::decimal_of(tunneled) + " connections passed through[/]"@]
    }
}

/// The lines on a run.
pub open spec fn summary_lines(stats: RegistryStats) -> Seq<Seq<char>> {
    seq![checked_line(stats.packages_checked as nat)] + quarantined_lines(
        registry::quarantined_views(stats.packages_quarantined@),
    ) + blocked_lines(stats.downloads_blocked@) + tunneled_lines(stats.connections_tunneled as nat)
}

/// The colour of a run: red if downloads were blocked, blue if versions were
/// withheld, green if all was well.
pub open spec fn border_color(stats: RegistryStats) -> Seq<char> {
    if stats.downloads_blocked@.len() > 0 {
        "red"@
    } else if stats.packages_quarantined@.len() > 0 {
        "blue"@
    } else {
        "green"@
    }
}

/// How many versions of all the packages were withheld, if the number can be held.
pub fn total_versions(packages: &Vec<QuarantinedPackage>) -> (r: Option<usize>)
    ensures
        ({
            let n = version_count(registry::quarantined_views(packages@));
            match r {
                Some(m) => m == n,
                None => n > usize::MAX,
            }
        }),
{
    let ghost all = registry::quarantined_views(packages@);
    let mut total: usize = 0;
    let mut i: usize = 0;
    while i < packages.len()
        invariant
            i <= packages@.len(),
            all == registry::quarantined_views(packages@),
            total == version_count(all.take(i as int)),
        decreases packages.len() - i,
    {
        let count = packages[i].quarantined_versions.len();
        proof {
            assert(all.take(i + 1).drop_last() =~= all.take(i as int));
            assert(all.take(i + 1).last() == packages@[i as int]@);
            assert(packages@[i as int]@.versions.len() == count);
            lemma_count_grows(all, i + 1);
        }
        match total.checked_add(count) {
            Some(sum) => {
                total = sum;
            },
            None => {
                return None;
            },
        }
        i += 1;
    }
    assert(all.take(packages@.len() as int) =~= all);
    Some(total)
}

proof fn lemma_count_grows(all: Seq<registry::Quarantined>, n: int)
    requires
        0 <= n <= all.len(),
    ensures
        version_count(all.take(n)) <= version_count(all),
    decreases all.len(),
{
    if n == all.len() {
        assert(all.take(n) =~= all);
    } else {
        lemma_count_grows(all.drop_last(), n);
        assert(all.drop_last().take(n) =~= all.take(n));
    }
}

fn push_line(lines: &mut Vec<String>, line: String)
    ensures
        text::texts(final(lines)@) == text::texts(old(lines)@).push(line@),
{
    let ghost before = text::texts(lines@);
    lines.push(line);
    assert(text::texts(lines@) =~= before.push(line@));
}

fn add_quarantined(lines: &mut Vec<String>, packages: &Vec<QuarantinedPackage>, total: usize)
    requires
        total == version_count(registry::quarantined_views(packages@)),
    ensures
        text::texts(final(lines)@) == text::texts(old(lines)@) + quarantined_lines(
            registry::quarantined_views(packages@),
        ),
{
    let ghost all = registry::quarantined_views(packages@);
    let ghost start = text::texts(lines@);
    if packages.len() == 0 {
        assert(start + quarantined_lines(all) =~= start);
        return;
    }
    let mut line = "[bold blue]".to_string();
    line.append(decimal(total).as_str());
    line.append("[/] versions quarantined across [bold blue]");
    line.append(decimal(packages.len()).as_str());
    line.append("[/] ");
    line.append(packages_word(packages.len()));
    assert(all.len() == packages@.len());
    push_line(lines, line);
    let ghost want = all.map_values(|p: registry::Quarantined| package_line(p));
    let ghost head = start.push(quarantined_line(all));
    let mut i: usize = 0;
    assert(head + want.take(0) =~= head);
    while i < packages.len()
        invariant
            i <= packages@.len(),
            all == registry::quarantined_views(packages@),
            want == all.map_values(|p: registry::Quarantined| package_line(p)),
            text::texts(lines@) == head + want.take(i as int),
        decreases packages.len() - i,
    {
        let list = format_quarantined_versions(&packages[i].quarantined_versions);
        let mut line = "[dim]  ".to_string();
        line.append(packages[i].name.as_str());
        line.append(" (");
        line.append(list.as_str());
        line.append(")[/]");
        assert(all[i as int] == packages@[i as int]@);
        assert(line@ =~= want[i as int]);
        push_line(lines, line);
        assert(want.take(i + 1) =~= want.take(i as int).push(want[i as int]));
        assert(text::texts(lines@) =~= head + want.take(i + 1));
        i += 1;
    }
    assert(want.take(packages@.len() as int) =~= want);
    assert(head + want =~= start + quarantined_lines(all));
}

fn add_blocked(lines: &mut Vec<String>, items: &Vec<BlockedItem>)
    ensures
        text::texts(final(lines)@) == text::texts(old(lines)@) + blocked_lines(items@),
{
    let ghost start = text::texts(lines@);
    if items.len() == 0 {
        assert(start + blocked_lines(items@) =~= start);
        return;
    }
    let mut line = "[bold red]".to_string();
    line.append(decimal(items.len()).as_str());
    line.append("[/] downloads blocked");
    let ghost head = start.push(line@);
    push_line(lines, line);
    let ghost want = items@.map_values(|item: BlockedItem| blocked_line(item));
    let mut i: usize = 0;
    assert(head + want.take(0) =~= head);
    while i < items.len()
        invariant
            i <= items@.len(),
            want == items@.map_values(|item: BlockedItem| blocked_line(item)),
            text::texts(lines@) == head + want.take(i as int),
        decreases items.len() - i,
    {
        let mut line = "[dim]  ".to_string();
        line.append(items[i].package.as_str());
        line.append("@");
        line.append(items[i].version.as_str());
        line.append("[/]");
        assert(line@ =~= want[i as int]);
        push_line(lines, line);
        assert(want.take(i + 1) =~= want.take(i as int).push(want[i as int]));
        assert(text::texts(lines@) =~= head + want.take(i + 1));
        i += 1;
    }
    assert(want.take(items@.len() as int) =~= want);
    assert(head + want =~= start + blocked_lines(items@));
}

/// What is shown after a run. The number of versions withheld must be one that
/// can be held, as [`total_versions`] tells.
pub fn summary(stats: &RegistryStats) -> (r: Panel)
    requires
        version_count(registry::quarantined_views(stats.packages_quarantined@)) <= usize::MAX,
    ensures
        r@ == (PanelView {
            title: "Farthinder Summary"@,
            border_color: border_color(*stats),
            content: text::joined(summary_lines(*stats), "\n"@),
        }),
{
    let mut lines: Vec<String> = Vec::new();
    let mut line = "[bold]".to_string();
    line.append(decimal(stats.packages_checked).as_str());
    line.append("[/] ");
    line.append(packages_word(stats.packages_checked));
    line.append(" checked");
    push_line(&mut lines, line);
    assert(text::texts(lines@) =~= seq![checked_line(stats.packages_checked as nat)]);
    match total_versions(&stats.packages_quarantined) {
        Some(total) => {
            add_quarantined(&mut lines, &stats.packages_quarantined, total);
        },
        None => {
            assert(false);
        },
    }
    add_blocked(&mut lines, &stats.downloads_blocked);
    if stats.connections_tunneled > 0 {
        let mut line = "[dim]".to_string();
        line.append(decimal(stats.connections_tunneled).as_str());
        line.append(" connections passed through[/]");
        push_line(&mut lines, line);
    }
    assert(text::texts(lines@) =~= summary_lines(*stats));
    let color = if stats.downloads_blocked.len() > 0 {
        "red"
    } else if stats.packages_quarantined.len() > 0 {
        "blue"
    } else {
        "green"
    };
    Panel {
        title: "Farthinder Summary".to_string(),
        border_color: color.to_string(),
        content: join(&lines, "\n"),
    }
}

} // verus!
