use farthinder::printer::{banner, format_quarantined_versions, summary, total_versions};
use farthinder::registry::{BlockedItem, Ecosystem, QuarantinedPackage, RegistryStats};

fn strings(list: &[&str]) -> Vec<String> {
    list.iter().map(|s| s.to_string()).collect()
}

fn package(name: &str, versions: &[&str]) -> QuarantinedPackage {
    QuarantinedPackage { name: name.to_string(), quarantined_versions: strings(versions) }
}

#[test]
fn banners() {
    let panel = banner(Ecosystem::Javascript);
    assert_eq!(panel.title, "Farthinder Active");
    assert_eq!(panel.border_color, "cyan");
    assert_eq!(panel.content, "Protecting [bold cyan]npm[/]");
    assert_eq!(banner(Ecosystem::Python).content, "Protecting [bold cyan]PyPI[/]");
}

#[test]
fn versions_are_listed_in_order() {
    let list = |versions: &[&str]| format_quarantined_versions(&strings(versions));
    assert_eq!(list(&[]), "");
    assert_eq!(list(&["12.39.0"]), "12.39.0");
    assert_eq!(list(&["1.374.2", "1.374.0", "1.374.1"]), "1.374.0, 1.374.1, 1.374.2");
    assert_eq!(
        list(&["18.3.29", "17.0.92", "15.7.37", "19.2.15", "16.14.70"]),
        "15.7.37, 16.14.70, 17.0.92, and 2 more"
    );
    assert_eq!(list(&["10", "9", "9", "8"]), "10, 8, 9, and 1 more");
}

#[test]
fn summary_of_a_quiet_run() {
    let panel = summary(&RegistryStats { packages_checked: 1, ..Default::default() });
    assert_eq!(panel.title, "Farthinder Summary");
    assert_eq!(panel.border_color, "green");
    assert_eq!(panel.content, "[bold]1[/] package checked");
}

#[test]
fn summary_of_a_busy_run() {
    let mut stats = RegistryStats {
        connections_tunneled: 3,
        packages_checked: 46,
        packages_quarantined: vec![package("motion", &["12.39.0"]), package("vitest", &["b", "a"])],
        downloads_blocked: vec![],
    };
    let panel = summary(&stats);
    assert_eq!(panel.border_color, "blue");
    assert_eq!(
        panel.content,
        "[bold]46[/] packages checked\n[bold blue]3[/] versions quarantined across [bold blue]2[/] packages\n[dim]  motion (12.39.0)[/]\n[dim]  vitest (a, b)[/]\n[dim]3 connections passed through[/]"
    );
    stats.downloads_blocked.push(BlockedItem { package: "x".to_string(), version: "1".to_string() });
    stats.packages_quarantined.truncate(1);
    stats.connections_tunneled = 0;
    let panel = summary(&stats);
    assert_eq!(panel.border_color, "red");
    assert_eq!(
        panel.content,
        "[bold]46[/] packages checked\n[bold blue]1[/] versions quarantined across [bold blue]1[/] package\n[dim]  motion (12.39.0)[/]\n[bold red]1[/] downloads blocked\n[dim]  x@1[/]"
    );
}

#[test]
fn versions_are_counted() {
    assert_eq!(total_versions(&vec![]), Some(0));
    assert_eq!(total_versions(&vec![package("a", &["1"]), package("b", &["1", "2"])]), Some(3));
}
