use farthinder::instant::{
    parse_instant, CutoffChecker, FIRST_INSTANT, HOUR, LAST_INSTANT,
};
use farthinder::registry::{
    Ecosystem, InterceptDecision, Registry, RegistryStats, ResponseAction, ToolName,
};
use farthinder::rule::Rules;
use farthinder::target::Url;

fn decide(tool: &str, args: &[&str]) -> InterceptDecision {
    let tool = ToolName::from_command(tool).unwrap();
    let args: Vec<String> = args.iter().map(|s| s.to_string()).collect();
    tool.ecosystem().unwrap().decide(tool, args)
}

fn intercepts(tool: &str, args: &[&str]) -> bool {
    matches!(decide(tool, args), InterceptDecision::Intercept(_))
}

fn intercepted_args(tool: &str, args: &[&str]) -> Vec<String> {
    match decide(tool, args) {
        InterceptDecision::Intercept(got) => got,
        InterceptDecision::Passthrough(_) => panic!("{tool} {args:?}: expected Intercept"),
    }
}

#[test]
fn js_intercepts() {
    assert!(intercepts("npx", &["create-react-app", "my-app"]));
    assert!(intercepts("npm", &["install", "--save-dev", "jest"]));
    assert!(intercepts("yarn", &[]));
    assert!(!intercepts("npm", &[]));
    assert!(!intercepts("bun", &["run", "dev"]));
}

#[test]
fn js_subcommands() {
    for tool in ["npm", "bun", "yarn", "pnpm"] {
        for sub in ["install", "i", "ci", "add", "update", "upgrade"] {
            assert!(intercepts(tool, &[sub]), "{tool} {sub}");
        }
        assert!(!intercepts(tool, &["run"]));
    }
    assert!(intercepts("pnpm", &[]));
    assert!(!intercepts("bun", &[]));
    assert!(intercepts("bunx", &["cowsay"]));
}

#[test]
fn python_intercepts() {
    assert!(intercepts("uv", &["run", "python", "script.py"]));
    assert!(intercepts("uv", &["pip", "install", "requests"]));
    assert!(intercepts("uv", &["sync"]));
    assert!(!intercepts("uv", &["pip", "list"]));
    assert!(intercepts("pip", &["install", "requests"]));
    assert!(!intercepts("pip", &["list"]));
    assert!(!intercepts("poetry", &["build"]));
}

#[test]
fn python_subcommands() {
    assert!(intercepts("uvx", &[]));
    assert!(intercepts("pip3", &["install"]));
    assert!(intercepts("uv", &["lock"]));
    assert!(intercepts("uv", &["add", "requests"]));
    assert!(!intercepts("uv", &["pip"]));
    assert!(!intercepts("uv", &[]));
    for sub in
        ["install", "run", "upgrade", "upgrade-all", "inject", "reinstall", "reinstall-all"]
    {
        assert!(intercepts("pipx", &[sub]));
    }
    assert!(!intercepts("pipx", &["list"]));
    for sub in ["install", "add", "update", "lock"] {
        assert!(intercepts("poetry", &[sub]));
    }
}

#[test]
fn python_intercepted_args() {
    assert_eq!(
        intercepted_args("uv", &["run", "python", "script.py"]),
        vec!["--frozen", "run", "python", "script.py"]
    );
    assert_eq!(
        intercepted_args("uv", &["pip", "install", "requests"]),
        vec!["pip", "install", "requests"]
    );
}

#[test]
fn foreign_tools_pass() {
    let args = || vec!["install".to_string()];
    match Ecosystem::Python.decide(ToolName::Npm, args()) {
        InterceptDecision::Passthrough(got) => assert_eq!(got, args()),
        other => panic!("{other:?}"),
    }
    match Ecosystem::Javascript.decide(ToolName::Pip, args()) {
        InterceptDecision::Passthrough(got) => assert_eq!(got, args()),
        other => panic!("{other:?}"),
    }
}

#[test]
fn tools_and_commands() {
    let all = ToolName::all();
    assert_eq!(all.len(), 12);
    for tool in all {
        assert_eq!(ToolName::from_command(tool.command()), Some(tool));
        assert_eq!(ToolName::from_command(&tool.command().to_uppercase()), Some(tool));
    }
    assert_eq!(ToolName::from_command("cargo"), None);
    assert_eq!(ToolName::from_command(""), None);
    assert_eq!(ToolName::Bunx.ecosystem(), Some(Ecosystem::Javascript));
    assert_eq!(ToolName::Poetry.ecosystem(), Some(Ecosystem::Python));
}

#[test]
fn stats_are_active_once_something_happened() {
    assert!(!RegistryStats::default().active());
    assert!(RegistryStats { packages_checked: 1, ..Default::default() }.active());
    assert!(RegistryStats { connections_tunneled: 1, ..Default::default() }.active());
}

#[test]
fn cutoff_is_inclusive() {
    let now = parse_instant("2024-01-03T00:00:00Z").unwrap();
    let checker = CutoffChecker::at(now, 48).unwrap();
    assert_eq!(Some(checker.cutoff()), parse_instant("2024-01-01T00:00:00Z"));
    assert!(checker.is_old_enough(parse_instant("2024-01-01T00:00:00Z")));
    assert!(!checker.is_old_enough(parse_instant("2024-01-01T00:00:00.000000001Z")));
    assert!(!checker.is_old_enough(None));
}

#[test]
fn longer_quarantine_is_stricter() {
    let now = parse_instant("2024-01-03T00:00:00Z").unwrap();
    let release = parse_instant("2024-01-01T12:00:00Z");
    assert!(CutoffChecker::at(now, 24).unwrap().is_old_enough(release));
    assert!(!CutoffChecker::at(now, 48).unwrap().is_old_enough(release));
    assert!(CutoffChecker::at(now + 12 * HOUR, 48).unwrap().is_old_enough(release));
}

#[test]
fn cutoff_before_all_time_is_none() {
    assert!(CutoffChecker::at(FIRST_INSTANT, 0).is_some());
    assert!(CutoffChecker::at(FIRST_INSTANT, 1).is_none());
    assert!(CutoffChecker::at(LAST_INSTANT, u32::MAX).is_none());
    assert!(CutoffChecker::new(u32::MAX).is_none());
    assert!(CutoffChecker::new(48).is_some());
    assert!(Ecosystem::Python.registry(Rules::new(u32::MAX)).is_none());
}

#[test]
fn instants_are_nanoseconds() {
    assert_eq!(parse_instant("1970-01-01T00:00:01Z"), Some(1_000_000_000));
    assert_eq!(parse_instant("1970-01-01T01:00:00+01:00"), Some(0));
    assert_eq!(parse_instant("1970-01-01"), None);
    assert_eq!(parse_instant(""), None);
}

#[test]
fn families_have_their_registries() {
    let mut npm = Ecosystem::Javascript.registry(Rules::new(48)).unwrap();
    let mut pypi = Ecosystem::Python.registry(Rules::new(48)).unwrap();
    assert!(matches!(npm, Registry::Npm(_)));
    assert!(matches!(pypi, Registry::PyPI(_)));
    assert!(npm.known_hosts().contains(&"registry.npmjs.org"));
    assert!(pypi.known_hosts().contains(&"pypi.org"));

    let url = Url::parse("https://example.org/simple/a/").unwrap();
    let headers = http::HeaderMap::new();
    let body = br#"{"releases":{}}"#;
    assert!(matches!(
        npm.handle_response(&url, 200, &headers, body),
        ResponseAction::Passthrough
    ));
    assert!(matches!(pypi.handle_response(&url, 200, &headers, body), ResponseAction::Block));
    assert_eq!(npm.proxy_env_vars("u", "c").len(), 5);
    assert_eq!(pypi.proxy_env_vars("u", "c").len(), 7);
    assert_eq!(npm.stats().packages_checked, 0);
    assert_eq!(pypi.stats().packages_checked, 0);
}

#[test]
fn urls_are_taken_apart() {
    let url = Url::parse("http://Example.org/a/b%20c?x=1#y").unwrap();
    assert_eq!(url.host.as_deref(), Some("example.org"));
    assert_eq!(url.port, Some(80));
    assert_eq!(url.path, "/a/b%20c");
    assert_eq!(url.query.as_deref(), Some("x=1"));
    assert_eq!(url.path_segments(), Some(vec!["a".to_string(), "b%20c".to_string()]));
    assert!(Url::parse("not a url").is_none());
    assert_eq!(Url::parse("mailto:a").unwrap().path_segments(), None);
}

#[test]
fn rules_keep_their_age() {
    assert_eq!(Rules::new(72).min_age_hours(), 72);
}
