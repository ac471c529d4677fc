use farthinder::config::{highest, AppConfig, Settings};
use farthinder::instant::CutoffChecker;
use farthinder::interceptor::{
    ca_cert_path, find_target_executable, is_own_name, run_stats, tool_name, InterceptError,
    Interceptor,
};
use farthinder::registry::npm::NpmRegistry;
use farthinder::registry::{Ecosystem, InterceptDecision, Registry};
use farthinder::sandbox::linux::LandlockEnforcer;
use farthinder::sandbox::{Enforcer, SandboxPolicy};

fn strings(list: &[&str]) -> Vec<String> {
    list.iter().map(|s| s.to_string()).collect()
}

fn shim(name: &str) -> Interceptor {
    let existing = vec![format!("/shims/{name}"), format!("/usr/bin/{name}")];
    let arg0 = Some(format!("/shims/{name}"));
    Interceptor::new(arg0, "/shims:/usr/bin", "/shims", &existing).unwrap()
}

fn policy() -> SandboxPolicy {
    SandboxPolicy {
        proxy_port: 8080,
        cwd: "/home/me/project".to_string(),
        home: "/home/me".to_string(),
        sensitive_paths: strings(&["/home/me/.ssh"]),
    }
}

#[test]
fn names_of_tools() {
    assert_eq!(tool_name(&Some("/shims/npm".to_string())).unwrap(), "npm");
    assert_eq!(tool_name(&Some("npm".to_string())).unwrap(), "npm");
    assert!(matches!(tool_name(&None), Err(InterceptError::NoName)));
    assert!(matches!(tool_name(&Some("/".to_string())), Err(InterceptError::InvalidName)));
    assert_eq!(InterceptError::NoName.message(), "no argv[0]");
    assert_eq!(InterceptError::InvalidName.message(), "invalid exe name");
}

#[test]
fn the_first_program_behind_the_shim() {
    let find = |path: &str, existing: &[&str]| {
        find_target_executable(path, "/shims", "npm", &strings(existing)).ok()
    };
    let path = "/shims/:/usr/bin:/opt/bin";
    assert_eq!(
        find(path, &["/shims/npm", "/usr/bin/npm", "/opt/bin/npm"]).as_deref(),
        Some("/usr/bin/npm")
    );
    assert_eq!(find(path, &["/shims/npm", "/opt/bin/npm"]).as_deref(), Some("/opt/bin/npm"));
    assert_eq!(find("/usr/bin:/shims", &["/shims/npm", "/usr/bin/npm"]).as_deref(), Some("/usr/bin/npm"));
    assert_eq!(find(path, &["/shims/npm"]), None);
    assert_eq!(find(path, &[]), None);
    assert_eq!(find("/shims:/shims", &["/shims/npm"]).as_deref(), Some("/shims/npm"));
    match find_target_executable(path, "/shims", "npm", &vec![]) {
        Err(e) => assert_eq!(e.message(), "no target executable for npm"),
        Ok(_) => panic!("there is nothing to find"),
    }
}

#[test]
fn calls_of_shims() {
    let npm = shim("npm");
    assert_eq!(npm.target(), "/usr/bin/npm");
    assert_eq!(npm.arg0(), "/shims/npm");
    assert_eq!(npm.ecosystem(), Some(Ecosystem::Javascript));
    assert!(matches!(npm.decide(strings(&["install"])), InterceptDecision::Intercept(_)));
    assert!(matches!(npm.decide(strings(&["run"])), InterceptDecision::Passthrough(_)));

    let cargo = shim("cargo");
    assert_eq!(cargo.ecosystem(), None);
    match cargo.decide(strings(&["install"])) {
        InterceptDecision::Passthrough(args) => assert_eq!(args, vec!["install"]),
        other => panic!("{other:?}"),
    }
    assert_eq!(shim("UV").ecosystem(), Some(Ecosystem::Python));
}

#[test]
fn commands_to_run() {
    let env = || vec![("HTTP_PROXY".to_string(), "http://127.0.0.1:1".to_string())];
    let required = AppConfig { min_age_hours: 48, sandbox_required: true };
    let optional = AppConfig { min_age_hours: 48, sandbox_required: false };
    let npm = shim("npm");
    let landlock = Some(Enforcer::Landlock(LandlockEnforcer));

    let plain = npm.command(strings(&["ci"]), env(), &optional, &policy(), &None).unwrap();
    assert_eq!(plain.program, "/usr/bin/npm");
    assert_eq!(plain.args, vec!["ci"]);
    assert_eq!(plain.env, env());

    match npm.command(strings(&["ci"]), env(), &required, &policy(), &None) {
        Err(e) => assert_eq!(
            e.message(),
            "sandbox is required but no kernel enforcer is available on this platform"
        ),
        Ok(_) => panic!("a sandbox is required"),
    }

    let boxed = npm.command(strings(&["ci"]), env(), &required, &policy(), &landlock).unwrap();
    assert_eq!(boxed.program, "/usr/bin/npm");
    assert_eq!(boxed.args, vec!["ci"]);
}

#[test]
fn stats_of_a_run() {
    let checker = CutoffChecker::at(0, 0).unwrap();
    let registry = Registry::Npm(NpmRegistry::with_checker(checker));
    assert!(run_stats(&registry, 0).is_none());
    let stats = run_stats(&registry, 2).unwrap();
    assert_eq!(stats.connections_tunneled, 2);
    assert_eq!(stats.packages_checked, 0);
}

#[test]
fn small_things_about_a_run() {
    assert_eq!(ca_cert_path("/tmp", 4711), "/tmp/farthinder/ca-4711.pem");
    assert!(is_own_name("fart"));
    assert!(!is_own_name("npm"));
}

#[test]
fn settings_have_defaults() {
    let config = AppConfig::from_settings(None, None);
    assert_eq!(config.min_age_hours, 48);
    assert!(config.sandbox_required);
    let config = AppConfig::from_settings(Some(1), Some(false));
    assert_eq!(config.min_age_hours, 1);
    assert!(!config.sandbox_required);
}

#[test]
fn settings_come_in_layers() {
    let none = Settings::default();
    let layer = |min_age_hours, sandbox_required| Settings { min_age_hours, sandbox_required };
    let user = layer(Some(72), Some(false));
    let project = layer(Some(24), None);
    let env = layer(None, Some(true));

    let config = AppConfig::from_layers(none, none, none);
    assert_eq!((config.min_age_hours, config.sandbox_required), (48, true));
    let config = AppConfig::from_layers(none, none, user);
    assert_eq!((config.min_age_hours, config.sandbox_required), (72, false));
    let config = AppConfig::from_layers(none, project, user);
    assert_eq!((config.min_age_hours, config.sandbox_required), (24, false));
    let config = AppConfig::from_layers(env, project, user);
    assert_eq!((config.min_age_hours, config.sandbox_required), (24, true));
    let config = AppConfig::from_layers(layer(Some(0), None), project, user);
    assert_eq!((config.min_age_hours, config.sandbox_required), (0, false));

    assert_eq!(highest(Some(1), Some(2), Some(3)), Some(1));
    assert_eq!(highest(None, None, Some(3)), Some(3));
    assert_eq!(highest::<u8>(None, None, None), None);
}
