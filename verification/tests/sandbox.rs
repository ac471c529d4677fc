use farthinder::sandbox::linux::{probed_abi, reach, step, LandlockEnforcer, Reach, Step};
use farthinder::sandbox::macos::{generate_sbpl, sbpl_path, MacosEnforcer};
use farthinder::sandbox::nop::NopEnforcer;
use farthinder::sandbox::{
    env_files, get_enforcer, sensitive_paths, Enforcer, Platform, SandboxEnforcer, SandboxPolicy,
    WrappedCommand,
};

fn strings(list: &[&str]) -> Vec<String> {
    list.iter().map(|s| s.to_string()).collect()
}

fn policy(sensitive: &[&str]) -> SandboxPolicy {
    SandboxPolicy {
        proxy_port: 8080,
        cwd: "/Users/test/project".to_string(),
        home: "/Users/test".to_string(),
        sensitive_paths: strings(sensitive),
    }
}

fn command() -> WrappedCommand {
    WrappedCommand {
        program: "/usr/bin/npm".to_string(),
        args: strings(&["ci", "--silent"]),
        env: vec![("A".to_string(), "1".to_string())],
    }
}

#[test]
fn sbpl_contains_deny_default() {
    let policy = SandboxPolicy {
        proxy_port: 8080,
        cwd: "/Users/test/project".to_string(),
        home: "/Users/test".to_string(),
        sensitive_paths: vec!["/Users/test/.ssh".to_string()],
    };
    let sbpl = generate_sbpl(&policy);
    assert!(sbpl.contains("(deny default)"));
    assert!(sbpl.contains("(deny file-read*"));
    assert!(sbpl.contains("(subpath \"/Users/test/.ssh\")"));
    assert!(sbpl.contains("(remote tcp \"localhost:8080\")"));
}

#[test]
fn sbpl_without_sensitive_paths_denies_none() {
    let sbpl = generate_sbpl(&policy(&[]));
    assert!(sbpl.contains("(deny default)"));
    assert!(!sbpl.contains("(deny file-read*"));
    assert!(sbpl.contains("(subpath \"/Users/test/project\")"));
    let opened = sbpl.matches('(').count();
    assert_eq!(opened, sbpl.matches(')').count());
}

#[test]
fn sbpl_closes_behind_what_it_opens() {
    let sbpl = generate_sbpl(&policy(&["/Users/test/.ssh", "/Users/test/.aws"]));
    let opens = sbpl.find("(allow file-read*").unwrap();
    let writes = sbpl.find("(allow file-write*").unwrap();
    let closes = sbpl.find("(deny file-read*").unwrap();
    assert!(opens < closes && writes < closes);
    assert_eq!(sbpl.matches("(subpath \"/Users/test/.aws\")").count(), 2);
}

#[test]
fn enforcers_of_platforms() {
    assert!(matches!(
        get_enforcer(Platform::Macos, true, -1, "/tmp/p"),
        Some(Enforcer::Macos(e)) if e.profile_path == "/tmp/p"
    ));
    assert!(get_enforcer(Platform::Macos, false, 9, "/tmp/p").is_none());
    assert!(matches!(
        get_enforcer(Platform::Linux, false, 4, ""),
        Some(Enforcer::Landlock(_))
    ));
    assert!(get_enforcer(Platform::Linux, true, 3, "").is_none());
    assert!(get_enforcer(Platform::Other, true, 9, "").is_none());
    assert!(MacosEnforcer::is_available(true));
    assert!(!LandlockEnforcer::is_available(-1));
    assert_eq!(probed_abi(4), Some(4));
    assert_eq!(probed_abi(3), None);
}

#[test]
fn macos_wraps_commands() {
    let enforcer = MacosEnforcer { profile_path: "/tmp/p.sbpl".to_string() };
    let wrapped = enforcer.wrap_command(&policy(&[]), &command());
    assert_eq!(sbpl_path("/tmp", 7), "/tmp/farthinder/sbpl-7.sbpl");
    assert_eq!(wrapped.program, "/usr/bin/sandbox-exec");
    assert_eq!(wrapped.args, vec!["-f", "/tmp/p.sbpl", "/usr/bin/npm", "ci", "--silent"]);
    assert_eq!(
        wrapped.env,
        vec![
            ("A".to_string(), "1".to_string()),
            ("__FARTHINDER_SBPL_PATH".to_string(), "/tmp/p.sbpl".to_string())
        ]
    );
}

#[test]
fn other_enforcers_keep_commands() {
    let landlock = Enforcer::Landlock(LandlockEnforcer).wrap_command(&policy(&[]), &command());
    let nop = NopEnforcer.wrap_command(&policy(&[]), &command());
    for wrapped in [landlock, nop] {
        assert_eq!(wrapped.program, "/usr/bin/npm");
        assert_eq!(wrapped.args, vec!["ci", "--silent"]);
        assert_eq!(wrapped.env, command().env);
    }
}

#[test]
fn landlock_rules_for_what_exists() {
    let existing = strings(&["/etc", "/usr", "/tmp", "/Users/test", "/lib"]);
    let rules = LandlockEnforcer::rules(&policy(&[]), &existing);
    assert_eq!(rules.read_paths, vec!["/etc", "/lib", "/usr"]);
    assert_eq!(rules.write_paths, vec!["/tmp", "/Users/test"]);
    assert!(rules.read_below.is_empty());
    assert!(rules.write_below.is_empty());
    assert_eq!(rules.connect_port, 8080);
}

#[test]
fn landlock_rules_open_nothing_sensitive() {
    let policy = SandboxPolicy {
        proxy_port: 1,
        cwd: "/usr/home/me/project".to_string(),
        home: "/usr/home/me".to_string(),
        sensitive_paths: strings(&["/usr/home/me/.ssh", "/etc", "/dev/shm/secret"]),
    };
    let existing = strings(&[
        "/etc", "/usr", "/proc", "/dev", "/tmp", "/dev/null", "/dev/shm", "/usr/home/me",
        "/usr/home/me/project",
    ]);
    let rules = LandlockEnforcer::rules(&policy, &existing);
    assert_eq!(rules.read_paths, vec!["/proc"]);
    assert_eq!(rules.read_below, vec!["/usr", "/dev"]);
    assert_eq!(rules.write_paths, vec!["/tmp", "/dev/null", "/usr/home/me/project"]);
    assert_eq!(rules.write_below, vec!["/dev/shm", "/usr/home/me"]);
}

#[test]
fn landlock_keeps_sensitive_paths_closed() {
    let sensitive = strings(&["/home/me/.ssh", "/home/me/.config/gcloud"]);
    assert_eq!(reach("/home/me", &sensitive), Reach::Part);
    assert_eq!(reach("/home/me/.config", &sensitive), Reach::Part);
    assert_eq!(reach("/home/me/.config/gcloud", &sensitive), Reach::Nothing);
    assert_eq!(reach("/home/me/.ssh/id_rsa", &sensitive), Reach::Nothing);
    assert_eq!(reach("/home/me/.sshx", &sensitive), Reach::All);
    assert_eq!(reach("/home/me/project", &sensitive), Reach::All);
    assert_eq!(reach("/home/me", &vec![]), Reach::All);
}

#[test]
fn landlock_steps_leave_links_and_secrets() {
    let sensitive = strings(&["/home/me/.ssh", "/home/me/.config/gcloud"]);
    assert_eq!(step("/home/me", false, &sensitive), Step::LookBelow);
    assert_eq!(step("/home/me/project", false, &sensitive), Step::Open);
    assert_eq!(step("/home/me/project", true, &sensitive), Step::Leave);
    assert_eq!(step("/home/me", true, &sensitive), Step::Leave);
    assert_eq!(step("/home/me/.ssh", false, &sensitive), Step::Leave);
    assert_eq!(step("/home/me/.ssh/config", false, &sensitive), Step::Leave);
}

#[test]
fn sensitive_paths_under_home() {
    assert_eq!(
        env_files("/h"),
        vec!["/h/.env", "/h/.env.local", "/h/.env.production", "/h/.env.production.local"]
    );
    assert_eq!(
        sensitive_paths("/h", &strings(&["/h/.env.production", "/h/other"])),
        vec!["/h/.ssh", "/h/.aws", "/h/.gnupg", "/h/.config/gcloud", "/h/.kube", "/h/.env.production"]
    );
}
