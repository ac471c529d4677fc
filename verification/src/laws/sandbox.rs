//! Laws of the sandboxes: what a tool may do in them, and what stays closed.

use vstd::prelude::*;

use super::words;
use crate::listing;
use crate::number;
use crate::paths;
use crate::sandbox;
use crate::sandbox::linux::{Reach, Step};
use crate::sandbox::macos::MacosEnforcer;
use crate::sandbox::{Command, Enforcer, Policy, SandboxEnforcer};
use crate::text;

verus! {

/// The filters for paths, each on a line of its own.
pub open spec fn filters(paths: Seq<Seq<char>>) -> Seq<char>
    decreases paths.len(),
{
    if paths.len() == 0 {
        seq![]
    } else {
        filters(paths.drop_last()) + "\n    (subpath \""@ + paths.last() + "\")"@
    }
}

/// The rules that close paths to reading and to writing.
pub open spec fn closing_rules(sensitive: Seq<Seq<char>>) -> Seq<char> {
    if sensitive.len() == 0 {
        seq![]
    } else {
        "(deny file-read*"@ + filters(sensitive) + ")\n(deny file-write*"@ + filters(sensitive)
            + ")\n"@
    }
}

/// The one rule on the network.
pub open spec fn network_rule(port: u16) -> Seq<char> {
    "(allow network-outbound\n    (remote tcp \"localhost:"@ + number::decimal_of(port as nat)
        + "\"))\n"@
}

proof fn lemma_filters(paths: Seq<Seq<char>>)
    ensures
        sandbox::macos::subpaths(paths) == filters(paths),
    decreases paths.len(),
{
    if paths.len() > 0 {
        lemma_filters(paths.drop_last());
        reveal_strlit("\n    ");
        reveal_strlit("(subpath \"");
        reveal_strlit("\n    (subpath \"");
        assert("\n    (subpath \""@ =~= "\n    "@ + "(subpath \""@);
        assert(sandbox::macos::subpaths(paths) =~= filters(paths));
    }
}

/// What the profile says, in its order: everything is denied; processes, signals
/// and the like and all reading are allowed; writing is allowed in the working
/// directory, the home directory and the places for what is temporary; the
/// sensitive paths are closed; and the port of the proxy is opened. Since a later
/// rule has the last word, nothing opens a sensitive path again.
pub proof fn law_profile(policy: Policy)
    ensures
        sandbox::macos::profile(policy)
            == "(version 1)\n(deny default)\n(allow process*)\n(allow signal)\n(allow sysctl*)\n(allow mach*)\n(allow ipc*)\n(allow system-socket)\n(allow pseudo-tty)\n(allow file-ioctl)\n(allow file-read*)\n(allow file-write*"@
            + filters(seq![policy.cwd, policy.home])
            + "\n    (subpath \"/tmp\")\n    (subpath \"/private/tmp\")\n    (subpath \"/private/var/tmp\")\n    (subpath \"/private/var/folders\")\n    (subpath \"/dev\"))\n"@
            + closing_rules(policy.sensitive_paths) + network_rule(policy.proxy_port),
{
    let head =
        "(version 1)\n(deny default)\n(allow process*)\n(allow signal)\n(allow sysctl*)\n(allow mach*)\n(allow ipc*)\n(allow system-socket)\n(allow pseudo-tty)\n(allow file-ioctl)\n(allow file-read*)\n(allow file-write*"@;
    let shared =
        "\n    (subpath \"/tmp\")\n    (subpath \"/private/tmp\")\n    (subpath \"/private/var/tmp\")\n    (subpath \"/private/var/folders\")\n    (subpath \"/dev\"))\n"@;
    lemma_filters(seq![policy.cwd, policy.home]);
    lemma_filters(policy.sensitive_paths);
    lemma_head();
    lemma_network_rule(policy.proxy_port);
    assert(sandbox::macos::WRITABLE@ == shared);
    assert(sandbox::macos::denials(policy.sensitive_paths) == closing_rules(
        policy.sensitive_paths,
    ));
    let own = filters(seq![policy.cwd, policy.home]);
    let closing = closing_rules(policy.sensitive_paths);
    let network = network_rule(policy.proxy_port);
    assert(sandbox::macos::profile(policy) =~= head + own + shared + closing + network);
}

proof fn lemma_head()
    ensures
        "(version 1)\n"@ + "(deny default)"@ + sandbox::macos::ALLOWED@ + "(allow file-write*"@
            == "(version 1)\n(deny default)\n(allow process*)\n(allow signal)\n(allow sysctl*)\n(allow mach*)\n(allow ipc*)\n(allow system-socket)\n(allow pseudo-tty)\n(allow file-ioctl)\n(allow file-read*)\n(allow file-write*"@,
{
    reveal_strlit("(version 1)\n");
    reveal_strlit("(deny default)");
    reveal_strlit(
        "\n(allow process*)\n(allow signal)\n(allow sysctl*)\n(allow mach*)\n(allow ipc*)\n(allow system-socket)\n(allow pseudo-tty)\n(allow file-ioctl)\n(allow file-read*)\n",
    );
    reveal_strlit("(allow file-write*");
    reveal_strlit(
        "(version 1)\n(deny default)\n(allow process*)\n(allow signal)\n(allow sysctl*)\n(allow mach*)\n(allow ipc*)\n(allow system-socket)\n(allow pseudo-tty)\n(allow file-ioctl)\n(allow file-read*)\n(allow file-write*",
    );
    assert("(version 1)\n"@ + "(deny default)"@ + sandbox::macos::ALLOWED@ + "(allow file-write*"@
        =~= "(version 1)\n(deny default)\n(allow process*)\n(allow signal)\n(allow sysctl*)\n(allow mach*)\n(allow ipc*)\n(allow system-socket)\n(allow pseudo-tty)\n(allow file-ioctl)\n(allow file-read*)\n(allow file-write*"@);
}

proof fn lemma_network_rule(port: u16)
    ensures
        "(allow network-outbound\n    "@ + sandbox::macos::proxy_filter(port) + ")\n"@
            == network_rule(port),
{
    reveal_strlit("(allow network-outbound\n    ");
    reveal_strlit("(remote tcp \"localhost:");
    reveal_strlit("\")");
    reveal_strlit(")\n");
    reveal_strlit("(allow network-outbound\n    (remote tcp \"localhost:");
    reveal_strlit("\"))\n");
    assert("(allow network-outbound\n    (remote tcp \"localhost:"@
        =~= "(allow network-outbound\n    "@ + "(remote tcp \"localhost:"@);
    assert("\"))\n"@ =~= "\")"@ + ")\n"@);
    assert("(allow network-outbound\n    "@ + sandbox::macos::proxy_filter(port) + ")\n"@
        =~= network_rule(port));
}

/// Whether every opening bracket in a text shows, within the text, that it opens
/// no rule that allows something whose name begins with `c`.
pub open spec fn allows_none(s: Seq<char>, c: char) -> bool {
    forall|i: int|
        0 <= i < s.len() && #[trigger] s[i] == '(' ==> (i + 1 < s.len() && s[i + 1] != 'a') || (i + 7
            < s.len() && s[i + 7] != c)
}

proof fn lemma_allows_none_app(a: Seq<char>, b: Seq<char>, c: char)
    requires
        allows_none(a, c),
        allows_none(b, c),
    ensures
        allows_none(a + b, c),
{
    let s = a + b;
    assert forall|i: int| 0 <= i < s.len() && #[trigger] s[i] == '(' implies (i + 1 < s.len()
        && s[i + 1] != 'a') || (i + 7 < s.len() && s[i + 7] != c) by {
        if i < a.len() {
            assert(a[i] == '(');
        } else {
            assert(b[i - a.len()] == '(');
        }
    }
}

proof fn lemma_filters_allow_none(paths: Seq<Seq<char>>, c: char)
    requires
        forall|i: int| 0 <= i < paths.len() ==> !(#[trigger] paths[i]).contains('('),
    ensures
        allows_none(filters(paths), c),
    decreases paths.len(),
{
    if paths.len() > 0 {
        let init = paths.drop_last();
        let last = paths.last();
        assert(forall|i: int| 0 <= i < init.len() ==> #[trigger] init[i] == paths[i]);
        assert(last == paths[paths.len() - 1]);
        lemma_filters_allow_none(init, c);
        reveal_strlit("\n    (subpath \"");
        reveal_strlit("\")");
        assert(allows_none("\n    (subpath \""@, c));
        assert(allows_none("\")"@, c));
        assert(allows_none(last, c)) by {
            assert forall|i: int| 0 <= i < last.len() implies #[trigger] last[i] != '(' by {
                if last[i] == '(' {
                    assert(last.contains('('));
                }
            }
        }
        lemma_allows_none_app(filters(init), "\n    (subpath \""@, c);
        lemma_allows_none_app(filters(init) + "\n    (subpath \""@, last, c);
        lemma_allows_none_app(filters(init) + "\n    (subpath \""@ + last, "\")"@, c);
    }
}

/// What stands before the rule on the network.
spec fn before_network(policy: Policy) -> Seq<char> {
    "(version 1)\n(deny default)\n(allow process*)\n(allow signal)\n(allow sysctl*)\n(allow mach*)\n(allow ipc*)\n(allow system-socket)\n(allow pseudo-tty)\n(allow file-ioctl)\n(allow file-read*)\n(allow file-write*"@
        + filters(seq![policy.cwd, policy.home])
        + "\n    (subpath \"/tmp\")\n    (subpath \"/private/tmp\")\n    (subpath \"/private/var/tmp\")\n    (subpath \"/private/var/folders\")\n    (subpath \"/dev\"))\n"@
        + closing_rules(policy.sensitive_paths)
}

proof fn lemma_before_network(policy: Policy, c: char)
    requires
        !policy.cwd.contains('('),
        !policy.home.contains('('),
        forall|i: int|
            0 <= i < policy.sensitive_paths.len() ==> !(
            #[trigger] policy.sensitive_paths[i]).contains('('),
        c != 'p' && c != 's' && c != 'm' && c != 'i' && c != 'f',
    ensures
        allows_none(before_network(policy), c),
{
    let head =
        "(version 1)\n(deny default)\n(allow process*)\n(allow signal)\n(allow sysctl*)\n(allow mach*)\n(allow ipc*)\n(allow system-socket)\n(allow pseudo-tty)\n(allow file-ioctl)\n(allow file-read*)\n(allow file-write*"@;
    let shared =
        "\n    (subpath \"/tmp\")\n    (subpath \"/private/tmp\")\n    (subpath \"/private/var/tmp\")\n    (subpath \"/private/var/folders\")\n    (subpath \"/dev\"))\n"@;
    let own = filters(seq![policy.cwd, policy.home]);
    let sensitive = filters(policy.sensitive_paths);
    assert(allows_none(head, c)) by {
        reveal_strlit(
            "(version 1)\n(deny default)\n(allow process*)\n(allow signal)\n(allow sysctl*)\n(allow mach*)\n(allow ipc*)\n(allow system-socket)\n(allow pseudo-tty)\n(allow file-ioctl)\n(allow file-read*)\n(allow file-write*",
        );
    }
    assert(allows_none(shared, c)) by {
        reveal_strlit(
            "\n    (subpath \"/tmp\")\n    (subpath \"/private/tmp\")\n    (subpath \"/private/var/tmp\")\n    (subpath \"/private/var/folders\")\n    (subpath \"/dev\"))\n",
        );
    }
    lemma_filters_allow_none(seq![policy.cwd, policy.home], c);
    lemma_filters_allow_none(policy.sensitive_paths, c);
    let closing = closing_rules(policy.sensitive_paths);
    assert(allows_none(closing, c)) by {
        reveal_strlit("(deny file-read*");
        reveal_strlit(")\n(deny file-write*");
        reveal_strlit(")\n");
        assert(allows_none("(deny file-read*"@, c));
        assert(allows_none(")\n(deny file-write*"@, c));
        assert(allows_none(")\n"@, c));
        lemma_allows_none_app("(deny file-read*"@, sensitive, c);
        lemma_allows_none_app("(deny file-read*"@ + sensitive, ")\n(deny file-write*"@, c);
        lemma_allows_none_app(
            "(deny file-read*"@ + sensitive + ")\n(deny file-write*"@,
            sensitive,
            c,
        );
        lemma_allows_none_app(
            "(deny file-read*"@ + sensitive + ")\n(deny file-write*"@ + sensitive,
            ")\n"@,
            c,
        );
    }
    lemma_allows_none_app(head, own, c);
    lemma_allows_none_app(head + own, shared, c);
    lemma_allows_none_app(head + own + shared, closing, c);
}

/// Only the port of the proxy can be connected to: wherever the profile allows
/// something of the network, the profile goes on with the filter for that port and
/// then ends. So there is exactly one such place. The paths of the policy are
/// taken to hold no opening bracket.
pub proof fn law_only_the_proxy_is_reached(policy: Policy, at: int)
    requires
        !policy.cwd.contains('('),
        !policy.home.contains('('),
        forall|i: int|
            0 <= i < policy.sensitive_paths.len() ==> !(
            #[trigger] policy.sensitive_paths[i]).contains('('),
        text::occurs_at(sandbox::macos::profile(policy), "(allow network"@, at),
    ensures
        sandbox::macos::profile(policy).skip(at)
            == "(allow network-outbound\n    (remote tcp \"localhost:"@ + number::decimal_of(
            policy.proxy_port as nat,
        ) + "\"))\n"@,
{
    let profile = sandbox::macos::profile(policy);
    let before = before_network(policy);
    let rule = network_rule(policy.proxy_port);
    let pat = "(allow network"@;
    let digits = number::decimal_of(policy.proxy_port as nat);
    law_profile(policy);
    assert(profile =~= before + rule);
    lemma_before_network(policy, 'n');
    reveal_strlit("(allow network");
    assert(pat.len() == 14 && pat[0] == '(' && pat[1] == 'a' && pat[7] == 'n');
    assert forall|j: int| 0 <= j < 14 implies #[trigger] profile[at + j] == pat[j] by {
        assert(profile.subrange(at, at + 14)[j] == pat[j]);
    }
    assert(profile[at] == pat[0] && profile[at + 1] == pat[1] && profile[at + 7] == pat[7]) by {
        assert(profile[at + 0] == pat[0]);
    }
    if at < before.len() {
        assert(before[at] == '(');
    } else if at > before.len() {
        reveal_strlit("(allow network-outbound\n    (remote tcp \"localhost:");
        reveal_strlit("\"))\n");
        let head = "(allow network-outbound\n    (remote tcp \"localhost:"@;
        let k = at - before.len();
        assert(rule[k] == '(' && rule[k + 1] == 'a');
        if k < head.len() {
            assert(head[k] == '(');
            assert(k == 28);
            assert(head[29] == 'r');
        } else if k < head.len() + digits.len() {
            number::lemma_decimal_digits(policy.proxy_port as nat);
            assert(number::is_digit(digits[k - head.len()]));
        } else {
            assert("\"))\n"@[k - head.len() - digits.len()] == '(');
        }
    }
    assert(profile.skip(before.len() as int) =~= rule);
}

/// Nothing else is allowed: whatever the profile allows has a name that begins
/// with one of six letters, so that there is no rule that allows everything.
pub proof fn law_nothing_else_is_allowed(policy: Policy, at: int)
    requires
        !policy.cwd.contains('('),
        !policy.home.contains('('),
        forall|i: int|
            0 <= i < policy.sensitive_paths.len() ==> !(
            #[trigger] policy.sensitive_paths[i]).contains('('),
        text::occurs_at(sandbox::macos::profile(policy), "(allow "@, at),
        at + 7 < sandbox::macos::profile(policy).len(),
    ensures
        ({
            let c = sandbox::macos::profile(policy)[at + 7];
            c == 'p' || c == 's' || c == 'm' || c == 'i' || c == 'f' || c == 'n'
        }),
{
    let profile = sandbox::macos::profile(policy);
    let c = profile[at + 7];
    if c != 'p' && c != 's' && c != 'm' && c != 'i' && c != 'f' && c != 'n' {
        let before = before_network(policy);
        let rule = network_rule(policy.proxy_port);
        let digits = number::decimal_of(policy.proxy_port as nat);
        law_profile(policy);
        assert(profile =~= before + rule);
        lemma_before_network(policy, c);
        reveal_strlit("(allow ");
        let pat = "(allow "@;
        assert(pat.len() == 7 && pat[0] == '(' && pat[1] == 'a');
        assert(profile.subrange(at, at + 7)[0] == pat[0]);
        assert(profile.subrange(at, at + 7)[1] == pat[1]);
        reveal_strlit("(allow network-outbound\n    (remote tcp \"localhost:");
        reveal_strlit("\"))\n");
        let head = "(allow network-outbound\n    (remote tcp \"localhost:"@;
        if at < before.len() {
            assert(before[at] == '(');
        } else {
            let k = at - before.len();
            assert(rule[k] == '(' && rule[k + 1] == 'a');
            if k < head.len() {
                assert(head[k] == '(');
                assert(k == 0 || k == 28);
                assert(head[7] == 'n' && head[29] == 'r');
            } else if k < head.len() + digits.len() {
                number::lemma_decimal_digits(policy.proxy_port as nat);
                assert(number::is_digit(digits[k - head.len()]));
            } else {
                assert("\"))\n"@[k - head.len() - digits.len()] == '(');
            }
        }
    }
}

/// A command that runs in a sandbox of macOS is started by `sandbox-exec` with the
/// profile, and is otherwise the command it was; one under Landlock is the command
/// it was.
pub proof fn law_sandboxed_command(enforcer: MacosEnforcer, other: Enforcer, cmd: Command)
    ensures
        enforcer.wrapped(cmd).program == "/usr/bin/sandbox-exec"@,
        enforcer.wrapped(cmd).args == seq!["-f"@, enforcer.profile_path@, cmd.program] + cmd.args,
        enforcer.wrapped(cmd).env == cmd.env.push(
            ("__FARTHINDER_SBPL_PATH"@, enforcer.profile_path@),
        ),
        match other {
            Enforcer::Macos(e) => other.wrapped(cmd) == e.wrapped(cmd),
            Enforcer::Landlock(_) => other.wrapped(cmd) == cmd,
        },
{
}

/// The secrets of a user: five directories, whether they exist or not, and the
/// four files of settings that do.
pub proof fn law_secrets(home: Seq<char>, existing: Seq<Seq<char>>, path: Seq<char>)
    requires
        home.len() > 0,
        home.last() != '/',
    ensures
        sandbox::secrets(home, existing).contains(path) <==> {
            ||| path == home + "/.ssh"@
            ||| path == home + "/.aws"@
            ||| path == home + "/.gnupg"@
            ||| path == home + "/.config/gcloud"@
            ||| path == home + "/.kube"@
            ||| existing.contains(path) && (path == home + "/.env"@ || path == home
                + "/.env.local"@ || path == home + "/.env.production"@ || path == home
                + "/.env.production.local"@)
        },
        sandbox::secret_files(home) == seq![
            home + "/.env"@,
            home + "/.env.local"@,
            home + "/.env.production"@,
            home + "/.env.production.local"@,
        ],
{
    reveal_strlit(".ssh");
    reveal_strlit("/.ssh");
    lemma_secret(home, ".ssh"@, "/.ssh"@);
    reveal_strlit(".aws");
    reveal_strlit("/.aws");
    lemma_secret(home, ".aws"@, "/.aws"@);
    reveal_strlit(".gnupg");
    reveal_strlit("/.gnupg");
    lemma_secret(home, ".gnupg"@, "/.gnupg"@);
    reveal_strlit(".kube");
    reveal_strlit("/.kube");
    lemma_secret(home, ".kube"@, "/.kube"@);
    reveal_strlit(".env");
    reveal_strlit("/.env");
    lemma_secret(home, ".env"@, "/.env"@);
    reveal_strlit(".env.local");
    reveal_strlit("/.env.local");
    lemma_secret(home, ".env.local"@, "/.env.local"@);
    reveal_strlit(".env.production");
    reveal_strlit("/.env.production");
    lemma_secret(home, ".env.production"@, "/.env.production"@);
    reveal_strlit(".env.production.local");
    reveal_strlit("/.env.production.local");
    lemma_secret(home, ".env.production.local"@, "/.env.production.local"@);
    reveal_strlit(".config");
    reveal_strlit("/.config");
    lemma_secret(home, ".config"@, "/.config"@);
    reveal_strlit("gcloud");
    reveal_strlit("/gcloud");
    reveal_strlit("/.config/gcloud");
    let config = home + "/.config"@;
    assert(config.last() == 'g');
    lemma_secret(config, "gcloud"@, "/gcloud"@);
    assert(config + "/gcloud"@ =~= home + "/.config/gcloud"@);
    let dirs = sandbox::secret_directories(home);
    let files = sandbox::secret_files(home);
    let good = |p: Seq<char>| existing.contains(p);
    let kept = files.filter(good);
    listing::lemma_filter_has(files, good);
    let all = sandbox::secrets(home, existing);
    assert(all =~= dirs + kept);
    assert(dirs[0] == home + "/.ssh"@ && dirs[1] == home + "/.aws"@ && dirs[2] == home + "/.gnupg"@
        && dirs[3] == home + "/.config/gcloud"@ && dirs[4] == home + "/.kube"@);
    assert(files[0] == home + "/.env"@ && files[1] == home + "/.env.local"@ && files[2] == home
        + "/.env.production"@ && files[3] == home + "/.env.production.local"@);
    if all.contains(path) {
        let i = choose|i: int| 0 <= i < all.len() && all[i] == path;
        if i >= 5 {
            assert(kept[i - 5] == path);
            assert(kept.contains(path));
            assert(files.contains(path) && good(path));
            let j = choose|j: int| 0 <= j < files.len() && files[j] == path;
        } else {
            assert(dirs[i] == path);
        }
    }
    if dirs.contains(path) {
        let i = choose|i: int| 0 <= i < dirs.len() && dirs[i] == path;
        assert(all[i] == path);
    }
    if kept.contains(path) {
        let i = choose|i: int| 0 <= i < kept.len() && kept[i] == path;
        assert(all[i + 5] == path);
    }
    if existing.contains(path) && files.contains(path) {
        assert(good(path));
    }
    assert(all[0] == dirs[0] && all[1] == dirs[1] && all[2] == dirs[2] && all[3] == dirs[3] && all[4]
        == dirs[4]);
    assert(files.contains(files[0]) && files.contains(files[1]) && files.contains(files[2])
        && files.contains(files[3]));
}

/// Wherever the home directory is, the secrets in it are the same.
pub proof fn law_secrets_of_any_home(home: Seq<char>, existing: Seq<Seq<char>>)
    ensures
        sandbox::secrets(home, existing) == seq![
            paths::joined_path(home, ".ssh"@),
            paths::joined_path(home, ".aws"@),
            paths::joined_path(home, ".gnupg"@),
            paths::joined_path(paths::joined_path(home, ".config"@), "gcloud"@),
            paths::joined_path(home, ".kube"@),
        ] + seq![
            paths::joined_path(home, ".env"@),
            paths::joined_path(home, ".env.local"@),
            paths::joined_path(home, ".env.production"@),
            paths::joined_path(home, ".env.production.local"@),
        ].filter(|path: Seq<char>| existing.contains(path)),
        sandbox::secret_files(home) == seq![
            paths::joined_path(home, ".env"@),
            paths::joined_path(home, ".env.local"@),
            paths::joined_path(home, ".env.production"@),
            paths::joined_path(home, ".env.production.local"@),
        ],
{
    let files = seq![
        paths::joined_path(home, ".env"@),
        paths::joined_path(home, ".env.local"@),
        paths::joined_path(home, ".env.production"@),
        paths::joined_path(home, ".env.production.local"@),
    ];
    assert(sandbox::secret_files(home) =~= files);
}

proof fn lemma_secret(base: Seq<char>, name: Seq<char>, rest: Seq<char>)
    ensures
        base.len() > 0 && base.last() != '/' && name.len() > 0 && name[0] != '/' && rest == seq!['/']
            + name ==> paths::joined_path(base, name) == base + rest,
{
    words::law_joined_path(base, name);
    assert(base + seq!['/'] + name =~= base + (seq!['/'] + name));
}

/// What is opened to a tool on Linux: to reading, what every program needs; to
/// writing, what is temporary, the working directory and the home directory.
pub proof fn law_landlock_places(policy: Policy)
    ensures
        sandbox::linux::baseline_read() == seq![
            "/etc"@,
            "/lib"@,
            "/lib32"@,
            "/lib64"@,
            "/usr"@,
            "/proc"@,
            "/sys"@,
            "/dev"@,
        ],
        sandbox::linux::writable(policy) == seq![
            "/tmp"@,
            "/var/tmp"@,
            "/dev/null"@,
            "/dev/zero"@,
            "/dev/shm"@,
            policy.cwd,
            policy.home,
        ],
{
    assert(sandbox::linux::writable(policy) =~= seq![
        "/tmp"@,
        "/var/tmp"@,
        "/dev/null"@,
        "/dev/zero"@,
        "/dev/shm"@,
        policy.cwd,
        policy.home,
    ]);
}

/// A path that is there is opened if no sensitive one is at it, above it or below
/// it; it is looked through if sensitive ones are below it only; at or below a
/// sensitive one it stays closed, and so does a symbolic link.
pub proof fn law_landlock_reach(
    wanted: Seq<Seq<char>>,
    existing: Seq<Seq<char>>,
    sensitive: Seq<Seq<char>>,
    path: Seq<char>,
    is_link: bool,
)
    ensures
        ({
            let above = exists|i: int|
                0 <= i < sensitive.len() && paths::within(path, #[trigger] sensitive[i]);
            let below = exists|i: int|
                0 <= i < sensitive.len() && paths::within(#[trigger] sensitive[i], path);
            let here = wanted.contains(path) && existing.contains(path);
            &&& sandbox::linux::reach_of(path, sensitive) == Reach::All <==> !above && !below
            &&& sandbox::linux::reach_of(path, sensitive) == Reach::Part <==> !above && below
            &&& sandbox::linux::reach_of(path, sensitive) == Reach::Nothing <==> above
            &&& sandbox::linux::chosen(wanted, existing, sensitive, Reach::All).contains(path) <==> here
                && !above && !below
            &&& sandbox::linux::chosen(wanted, existing, sensitive, Reach::Part).contains(path) <==> here
                && !above && below
            &&& sandbox::linux::step_at(path, is_link, sensitive) == Step::Open <==> !is_link && !above
                && !below
            &&& sandbox::linux::step_at(path, is_link, sensitive) == Step::LookBelow <==> !is_link
                && !above && below
        }),
{
    listing::lemma_filter_has(
        wanted,
        |p: Seq<char>|
            existing.contains(p) && sandbox::linux::reach_of(p, sensitive) == Reach::All,
    );
    listing::lemma_filter_has(
        wanted,
        |p: Seq<char>|
            existing.contains(p) && sandbox::linux::reach_of(p, sensitive) == Reach::Part,
    );
}

/// The places that are opened, or looked through, are those of the wanted ones
/// that are there and can be reached that far, in their order.
pub proof fn law_landlock_order(
    wanted: Seq<Seq<char>>,
    existing: Seq<Seq<char>>,
    sensitive: Seq<Seq<char>>,
    reach: Reach,
)
    ensures
        sandbox::linux::chosen(wanted, existing, sensitive, reach) == wanted.filter(
            |path: Seq<char>|
                existing.contains(path) && sandbox::linux::reach_of(path, sensitive) == reach,
        ),
{
}

/// Landlock is used from its fourth version on, the first that can hold back
/// connections.
pub proof fn law_landlock_version(raw: i64)
    ensures
        sandbox::linux::abi_of(raw) is Some <==> raw >= 4,
        4 <= raw <= u32::MAX ==> sandbox::linux::abi_of(raw) == Some(raw as u32),
{
}

/// What is below a directory is within it, whatever the rest of the path is, and
/// so is the directory itself; what is below another directory beside it is not.
pub proof fn law_within(dir: Seq<char>, rest: Seq<char>, name: Seq<char>, other: Seq<char>)
    requires
        dir.len() > 0,
        name.len() > 0,
        !name.contains('/'),
        name != "."@,
        other.len() > 0,
        !other.contains('/'),
        other != "."@,
        name != other,
    ensures
        paths::within(dir, dir),
        paths::within(dir + seq!['/'] + rest, dir),
        !paths::within(dir + seq!['/'] + other + seq!['/'] + rest, dir + seq!['/'] + name),
        !paths::within(dir, dir + seq!['/'] + name),
{
    let good = |piece: Seq<char>| paths::is_step(piece);
    reveal_strlit("/");
    assert("/"@ =~= seq!['/']);
    let a = dir + seq!['/'] + rest;
    words::law_split_runs(dir, rest, '/');
    lemma_steps_app(text::split_on(dir, '/'), text::split_on(rest, '/'));
    let d = paths::steps(dir);
    assert(paths::steps(a) == d + paths::steps(rest));
    assert(d =~= (d + paths::steps(rest)).subrange(0, d.len() as int));
    assert(d =~= d.subrange(0, d.len() as int));
    lemma_rooted(dir, rest);
    let n = dir + seq!['/'] + name;
    lemma_rooted(dir, name);
    words::law_split_runs(dir, name, '/');
    words::law_split_runs(name, seq![], '/');
    lemma_steps_app(text::split_on(dir, '/'), text::split_on(name, '/'));
    lemma_one_step(name);
    assert(paths::steps(n) =~= d.push(name));
    let o = dir + seq!['/'] + (other + seq!['/'] + rest);
    assert(dir + seq!['/'] + other + seq!['/'] + rest =~= o);
    words::law_split_runs(dir, other + seq!['/'] + rest, '/');
    words::law_split_runs(other, rest, '/');
    lemma_steps_app(text::split_on(dir, '/'), text::split_on(other + seq!['/'] + rest, '/'));
    lemma_steps_app(text::split_on(other, '/'), text::split_on(rest, '/'));
    lemma_one_step(other);
    assert(paths::steps(o) =~= d + (seq![other] + paths::steps(rest)));
    let long = paths::steps(o);
    assert(long[d.len() as int] == other);
    if paths::within(o, n) {
        assert(d.push(name)[d.len() as int] == long.subrange(0, (d.len() + 1) as int)[d.len() as int]);
    }
}

proof fn lemma_rooted(dir: Seq<char>, rest: Seq<char>)
    requires
        dir.len() > 0,
    ensures
        paths::is_rooted(dir + seq!['/'] + rest) == paths::is_rooted(dir),
{
    reveal_strlit("/");
    assert("/"@ =~= seq!['/']);
    let s = dir + seq!['/'] + rest;
    assert(s[0] == dir[0]);
    assert(s.subrange(0, 1) =~= dir.subrange(0, 1));
}

proof fn lemma_steps_app(a: Seq<Seq<char>>, b: Seq<Seq<char>>)
    ensures
        (a + b).filter(|piece: Seq<char>| paths::is_step(piece)) == a.filter(
            |piece: Seq<char>| paths::is_step(piece),
        ) + b.filter(|piece: Seq<char>| paths::is_step(piece)),
    decreases b.len(),
{
    reveal(Seq::filter);
    let good = |piece: Seq<char>| paths::is_step(piece);
    if b.len() == 0 {
        assert(a + b =~= a);
        assert(a.filter(good) + b.filter(good) =~= a.filter(good));
    } else {
        let init = b.drop_last();
        lemma_steps_app(a, init);
        assert((a + b).drop_last() =~= a + init);
        assert((a + b).last() == b.last());
        assert((a + b).filter(good) =~= a.filter(good) + b.filter(good));
    }
}

proof fn lemma_one_step(name: Seq<char>)
    requires
        name.len() > 0,
        !name.contains('/'),
        name != "."@,
    ensures
        text::split_on(name, '/') == seq![name],
        seq![name].filter(|piece: Seq<char>| paths::is_step(piece)) == seq![name],
{
    reveal(Seq::filter);
    words::law_split_runs(name, seq![], '/');
    let good = |piece: Seq<char>| paths::is_step(piece);
    let one = seq![name];
    let nothing = Seq::<Seq<char>>::empty();
    assert(one.drop_last() =~= nothing);
    assert(nothing.filter(good) =~= nothing);
    assert(one.last() == name);
    assert(one.filter(good) =~= one);
}

} // verus!
