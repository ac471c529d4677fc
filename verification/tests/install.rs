use farthinder::install::{
    block, candidates, data_dir, eject, home_dir, inject, install_report, needs_shim, rc_targets,
    scan_path_for_tools, shim_dir, shims, strip_block, InstallError, MARKER_END, MARKER_START,
    PLACEHOLDER_CONTENT, REMOVED,
};
use farthinder::paths::{file_name, is_within, join, same_path};

fn strings(list: &[&str]) -> Vec<String> {
    list.iter().map(|s| s.to_string()).collect()
}

#[test]
fn blocks_are_stripped() {
    assert_eq!(strip_block(""), "");
    assert_eq!(strip_block("a\nb\n"), "a\nb");
    assert_eq!(strip_block("\n\na\n\nb\n"), "a\n\nb");
    let content = format!("a\n{MARKER_START}\nexport X\n{MARKER_END}\nb\n");
    assert_eq!(strip_block(&content), "a\nb");
    let indented = format!("a\n  {MARKER_START}\t\nexport X\n {MARKER_END}\r\nb");
    assert_eq!(strip_block(&indented), "a\nb");
    let open = format!("a\n{MARKER_START}\nb\nc\n");
    assert_eq!(strip_block(&open), "a");
    assert_eq!(strip_block(&format!("{MARKER_END}\na")), "a");
}

#[test]
fn blocks_are_written() {
    assert_eq!(block("x"), "# >>> farthinder >>>\nx\n# <<< farthinder <<<");
    assert_eq!(
        inject("alias l=ls\n", &block("x")),
        "alias l=ls\n# >>> farthinder >>>\nx\n# <<< farthinder <<<\n"
    );
    assert_eq!(inject("", "B"), "\nB\n");
}

#[test]
fn uninstall_undoes_install() {
    let content = "# mine\nalias l=ls\n\nexport A=1\n";
    for target in rc_targets("/home/me") {
        let once = inject(content, &target.block);
        let twice = inject(&once, &target.block);
        assert_eq!(once, twice);
        assert_eq!(eject(&once).as_deref(), Some("# mine\nalias l=ls\n\nexport A=1"));
    }
    assert_eq!(eject("a\nb"), None);
    assert_eq!(eject("a\nb\n").as_deref(), Some("a\nb"));
}

#[test]
fn a_doubled_carriage_return_loses_one() {
    let content = "a\r\r\n";
    assert_eq!(strip_block(content), "a\r");
    assert_eq!(strip_block(&inject(content, &block("x"))), "a");
}

#[test]
fn start_up_files() {
    let targets = rc_targets("/home/me");
    let paths: Vec<&str> = targets.iter().map(|t| t.path.as_str()).collect();
    assert_eq!(
        paths,
        vec![
            "/home/me/.zshenv",
            "/home/me/.zshrc",
            "/home/me/.bash_profile",
            "/home/me/.bashrc",
            "/home/me/.config/fish/config.fish"
        ]
    );
    assert_eq!(targets[0].block, targets[2].block);
    assert_eq!(targets[0].block, targets[3].block);
    assert_ne!(targets[0].block, targets[1].block);
    for target in targets {
        assert!(target.block.starts_with(MARKER_START));
        assert!(target.block.ends_with(MARKER_END));
        assert!(target.block.contains("$HOME/.farthinder/bin"));
    }
}

#[test]
fn directories_under_home() {
    assert_eq!(home_dir("/home/me"), "/home/me/.farthinder");
    assert_eq!(shim_dir("/home/me/"), "/home/me/.farthinder/bin");
    assert_eq!(data_dir("/home/me"), "/home/me/.farthinder/data");
    assert!(PLACEHOLDER_CONTENT.starts_with("# farthinder data directory\n\n"));
    assert!(REMOVED.starts_with("Removed farthinder.\n"));
}

#[test]
fn tools_are_found_on_the_path() {
    let path = "/usr/bin:/opt/bin/::rel";
    assert_eq!(
        candidates(path, "npm"),
        vec!["/usr/bin/npm", "/opt/bin/npm", "npm", "rel/npm"]
    );
    let existing = strings(&["/opt/bin/uv", "/usr/bin/npm", "npm", "/usr/bin/cargo"]);
    assert_eq!(scan_path_for_tools(path, &existing), vec!["npm", "uv"]);
    assert!(scan_path_for_tools(path, &vec![]).is_empty());
}

#[test]
fn shims_for_what_was_found() {
    assert_eq!(
        shims("/home/me", &strings(&["npm", "uv"])),
        Ok(strings(&["/home/me/.farthinder/bin/npm", "/home/me/.farthinder/bin/uv"]))
    );
    assert_eq!(shims("/home/me", &vec![]), Err(InstallError::NoTools));
    assert_eq!(
        InstallError::NoTools.message(),
        "no supported package managers found on your PATH"
    );
    assert!(!needs_shim(true, true));
    assert!(needs_shim(true, false));
    assert!(needs_shim(false, true));
}

#[test]
fn report_of_an_installation() {
    let found = strings(&["npm", "bun", "pnpm", "yarn", "uv"]);
    assert_eq!(
        install_report(&found, "~/.farthinder/bin"),
        "\nCreated shims for 5 tools:\n  npm, bun, pnpm, yarn, uv\n\nShim directory: ~/.farthinder/bin\nRun `exec $SHELL` or open a new terminal to activate.\n"
    );
}

#[test]
fn paths_are_joined_like_files() {
    for (base, name) in
        [("/a", "b"), ("/a/", "b"), ("", "b"), ("/a", "/b"), ("a", "b/c"), ("/a", "")]
    {
        let expected = std::path::Path::new(base).join(name);
        assert_eq!(join(base, name), expected.to_str().unwrap());
    }
}

#[test]
fn paths_are_compared_like_files() {
    let all = ["/a/b", "/a//b", "/a/b/", "/a/./b", "a/b", "./a/b", "/a/b/..", ".", "", "/"];
    for a in all {
        for b in all {
            let expected = std::path::Path::new(a) == std::path::Path::new(b);
            assert_eq!(same_path(a, b), expected, "{a} {b}");
        }
        let name = std::path::Path::new(a).file_name().map(|n| n.to_str().unwrap().to_string());
        assert_eq!(file_name(a), name, "{a}");
    }
}

#[test]
fn paths_below_a_directory() {
    assert!(is_within("/home/me/.ssh/id", "/home/me/.ssh"));
    assert!(is_within("/home/me/.ssh", "/home/me/.ssh/"));
    assert!(!is_within("/home/me/.sshd", "/home/me/.ssh"));
    assert!(!is_within("/home/me", "/home/me/.ssh"));
    assert!(!is_within("home/me/.ssh", "/home"));
}
