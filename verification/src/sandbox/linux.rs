//! The sandbox of Linux, made by Landlock. Its rules only ever allow: what no
//! rule reaches stays closed.

use vstd::prelude::*;

use super::{Command, Policy, SandboxEnforcer, SandboxPolicy, WrappedCommand};
use crate::listing;
use crate::paths;
use crate::paths::is_within;
use crate::text;
use crate::text::listed;

verus! {

/// What runs commands under Landlock. The command stays as it is; the process
/// that starts it takes on the rules first.
#[derive(Debug, Clone, Copy, PartialEq, Eq, Structural)]
pub struct LandlockEnforcer;

/// The version of Landlock that the kernel has, if it is one that can hold back
/// connections. `raw` is the answer of the kernel, negative where it has none.
pub open spec fn abi_of(raw: i64) -> Option<u32> {
    if raw >= 4 {
        Some(raw as u32)
    } else {
        None
    }
}

/// The version of Landlock that the kernel has, if it is one that can hold back
/// connections.
pub fn probed_abi(raw: i64) -> (r: Option<u32>)
    ensures
        r == abi_of(raw),
{
    if raw >= 4 {
        Some(raw as u32)
    } else {
        None
    }
}

impl LandlockEnforcer {
    /// Whether the kernel can hold back connections.
    pub fn is_available(raw: i64) -> (r: bool)
        ensures
            r == (raw >= 4),
    {
        probed_abi(raw).is_some()
    }
}

impl SandboxEnforcer for LandlockEnforcer {
    open spec fn wrapped(&self, cmd: Command) -> Command {
        cmd
    }

    fn wrap_command(&self, _policy: &SandboxPolicy, cmd: &WrappedCommand) -> (r: WrappedCommand) {
        cmd.copy()
    }
}

/// What every tool may read.
pub open spec fn baseline_read() -> Seq<Seq<char>> {
    seq!["/etc"@, "/lib"@, "/lib32"@, "/lib64"@, "/usr"@, "/proc"@, "/sys"@, "/dev"@]
}

/// What every tool may write.
pub open spec fn baseline_write() -> Seq<Seq<char>> {
    seq!["/tmp"@, "/var/tmp"@, "/dev/null"@, "/dev/zero"@, "/dev/shm"@]
}

/// Where a tool may write under a policy.
pub open spec fn writable(policy: Policy) -> Seq<Seq<char>> {
    baseline_write() + seq![policy.cwd, policy.home]
}

/// What every tool may read.
pub fn baseline_read_paths() -> (r: Vec<String>)
    ensures
        text::texts(r@) == baseline_read(),
{
    let r = vec![
        "/etc".to_string(),
        "/lib".to_string(),
        "/lib32".to_string(),
        "/lib64".to_string(),
        "/usr".to_string(),
        "/proc".to_string(),
        "/sys".to_string(),
        "/dev".to_string(),
    ];
    assert(text::texts(r@) =~= baseline_read());
    r
}

/// Where a tool may write under a policy.
pub fn write_paths(policy: &SandboxPolicy) -> (r: Vec<String>)
    ensures
        text::texts(r@) == writable(policy@),
{
    let r = vec![
        "/tmp".to_string(),
        "/var/tmp".to_string(),
        "/dev/null".to_string(),
        "/dev/zero".to_string(),
        "/dev/shm".to_string(),
        policy.cwd.clone(),
        policy.home.clone(),
    ];
    assert(text::texts(r@) =~= writable(policy@));
    r
}

/// How far a tool may reach at a path.
#[derive(Debug, Clone, Copy, PartialEq, Eq, Structural)]
pub enum Reach {
    /// To everything there.
    All,
    /// To some of what is below.
    Part,
    /// To nothing.
    Nothing,
}

/// How far a tool may reach at a path, if it must not reach the sensitive ones.
pub open spec fn reach_of(path: Seq<char>, sensitive: Seq<Seq<char>>) -> Reach {
    if exists|i: int| 0 <= i < sensitive.len() && paths::within(path, #[trigger] sensitive[i]) {
        Reach::Nothing
    } else if exists|i: int|
        0 <= i < sensitive.len() && paths::within(#[trigger] sensitive[i], path) {
        Reach::Part
    } else {
        Reach::All
    }
}

/// How far a tool may reach at a path, if it must not reach the sensitive ones.
/// A rule for a directory would open everything below it.
pub fn reach(path: &str, sensitive: &Vec<String>) -> (r: Reach)
    ensures
        r == reach_of(path@, text::texts(sensitive@)),
{
    let ghost all = text::texts(sensitive@);
    let mut part = false;
    let mut i: usize = 0;
    while i < sensitive.len()
        invariant
            i <= sensitive@.len(),
            all == text::texts(sensitive@),
            forall|j: int| 0 <= j < i ==> !paths::within(path@, #[trigger] all[j]),
            part == exists|j: int| 0 <= j < i && paths::within(#[trigger] all[j], path@),
        decreases sensitive.len() - i,
    {
        assert(all[i as int] == sensitive@[i as int]@);
        if is_within(path, sensitive[i].as_str()) {
            return Reach::Nothing;
        }
        if is_within(sensitive[i].as_str(), path) {
            part = true;
        }
        i += 1;
    }
    if part {
        Reach::Part
    } else {
        Reach::All
    }
}

/// Where everything may be reached, nothing sensitive is: no path lies both
/// there and at or below a sensitive one.
pub proof fn lemma_sensitive_stays_closed(
    path: Seq<char>,
    sensitive: Seq<Seq<char>>,
    i: int,
    file: Seq<char>,
)
    requires
        reach_of(path, sensitive) == Reach::All,
        0 <= i < sensitive.len(),
        paths::within(file, sensitive[i]),
    ensures
        !paths::within(file, path),
{
    if paths::within(file, path) {
        paths::lemma_within(file, path, sensitive[i]);
    }
}

/// What to do about a path on the way to what a tool may reach.
#[derive(Debug, Clone, Copy, PartialEq, Eq, Structural)]
pub enum Step {
    /// Open it, with everything below.
    Open,
    /// Go on with what is directly below.
    LookBelow,
    /// Leave it closed.
    Leave,
}

/// What to do about a path. A symbolic link stays closed, since a rule for it
/// would open what it leads to.
pub open spec fn step_at(path: Seq<char>, is_link: bool, sensitive: Seq<Seq<char>>) -> Step {
    if is_link {
        Step::Leave
    } else {
        match reach_of(path, sensitive) {
            Reach::All => Step::Open,
            Reach::Part => Step::LookBelow,
            Reach::Nothing => Step::Leave,
        }
    }
}

/// What to do about a path on the way to what a tool may reach, if it must not
/// reach the sensitive ones.
pub fn step(path: &str, is_link: bool, sensitive: &Vec<String>) -> (r: Step)
    ensures
        r == step_at(path@, is_link, text::texts(sensitive@)),
{
    if is_link {
        return Step::Leave;
    }
    match reach(path, sensitive) {
        Reach::All => Step::Open,
        Reach::Part => Step::LookBelow,
        Reach::Nothing => Step::Leave,
    }
}

/// What a step opens has no sensitive path at it, above it or below it, and
/// nothing at or below a sensitive path lies below it.
pub proof fn lemma_steps_keep_sensitive_paths_closed(
    path: Seq<char>,
    is_link: bool,
    sensitive: Seq<Seq<char>>,
    i: int,
    file: Seq<char>,
)
    requires
        step_at(path, is_link, sensitive) == Step::Open,
        0 <= i < sensitive.len(),
    ensures
        !paths::within(path, sensitive[i]),
        !paths::within(sensitive[i], path),
        paths::within(file, sensitive[i]) ==> !paths::within(file, path),
{
    if paths::within(file, sensitive[i]) {
        lemma_sensitive_stays_closed(path, sensitive, i, file);
    }
}

/// Those of the wanted paths at which there is something, and at which a tool
/// may reach this far.
pub open spec fn chosen(
    wanted: Seq<Seq<char>>,
    existing: Seq<Seq<char>>,
    sensitive: Seq<Seq<char>>,
    reach: Reach,
) -> Seq<Seq<char>> {
    wanted.filter(|p: Seq<char>| existing.contains(p) && reach_of(p, sensitive) == reach)
}

fn choose_paths(
    wanted: &Vec<String>,
    existing: &Vec<String>,
    sensitive: &Vec<String>,
    far: Reach,
) -> (r: Vec<String>)
    ensures
        text::texts(r@) == chosen(
            text::texts(wanted@),
            text::texts(existing@),
            text::texts(sensitive@),
            far,
        ),
{
    let ghost all = text::texts(wanted@);
    let ghost here = text::texts(existing@);
    let ghost closed = text::texts(sensitive@);
    let ghost good = |p: Seq<char>| here.contains(p) && reach_of(p, closed) == far;
    let mut out: Vec<String> = Vec::new();
    let mut i: usize = 0;
    proof {
        listing::lemma_filter_ends(all, good);
        assert(text::texts(out@) =~= seq![]);
    }
    while i < wanted.len()
        invariant
            i <= wanted@.len(),
            all == text::texts(wanted@),
            here == text::texts(existing@),
            closed == text::texts(sensitive@),
            good == (|p: Seq<char>| here.contains(p) && reach_of(p, closed) == far),
            text::texts(out@) == all.take(i as int).filter(good),
        decreases wanted.len() - i,
    {
        proof {
            listing::lemma_filter_step(all, i as int, good);
        }
        let ghost before = text::texts(out@);
        if listed(existing, wanted[i].as_str()) && reach(wanted[i].as_str(), sensitive) == far {
            out.push(wanted[i].clone());
            assert(text::texts(out@) =~= before.push(all[i as int]));
        }
        i += 1;
    }
    proof {
        listing::lemma_filter_ends(all, good);
    }
    out
}

/// The rules of a sandbox: what is opened to reading and to writing, what is to
/// be looked through for more to open, and the one port that may be connected to.
#[derive(Debug, Clone)]
pub struct LandlockRules {
    pub read_paths: Vec<String>,
    pub read_below: Vec<String>,
    pub write_paths: Vec<String>,
    pub write_below: Vec<String>,
    pub connect_port: u16,
}

impl LandlockEnforcer {
    /// The rules for a policy, where `existing` holds the paths at which there
    /// is something: a rule can only be made for what exists. A path with
    /// something sensitive below is not opened: what [`step`] finds below it is.
    pub fn rules(policy: &SandboxPolicy, existing: &Vec<String>) -> (r: LandlockRules)
        ensures
            text::texts(r.read_paths@) == chosen(
                baseline_read(),
                text::texts(existing@),
                policy@.sensitive_paths,
                Reach::All,
            ),
            text::texts(r.read_below@) == chosen(
                baseline_read(),
                text::texts(existing@),
                policy@.sensitive_paths,
                Reach::Part,
            ),
            text::texts(r.write_paths@) == chosen(
                writable(policy@),
                text::texts(existing@),
                policy@.sensitive_paths,
                Reach::All,
            ),
            text::texts(r.write_below@) == chosen(
                writable(policy@),
                text::texts(existing@),
                policy@.sensitive_paths,
                Reach::Part,
            ),
            r.connect_port == policy.proxy_port,
    {
        let read = baseline_read_paths();
        let write = write_paths(policy);
        let sensitive = &policy.sensitive_paths;
        LandlockRules {
            read_paths: choose_paths(&read, existing, sensitive, Reach::All),
            read_below: choose_paths(&read, existing, sensitive, Reach::Part),
            write_paths: choose_paths(&write, existing, sensitive, Reach::All),
            write_below: choose_paths(&write, existing, sensitive, Reach::Part),
            connect_port: policy.proxy_port,
        }
    }
}

/// No path that the rules for a policy open, be it to reading or to writing, has
/// a sensitive path at it, above it or below it, and nothing at or below a
/// sensitive path lies below an opened one.
pub proof fn lemma_rules_keep_sensitive_paths_closed(
    policy: Policy,
    existing: Seq<Seq<char>>,
    path: Seq<char>,
    i: int,
    file: Seq<char>,
)
    requires
        chosen(baseline_read(), existing, policy.sensitive_paths, Reach::All).contains(path)
            || chosen(writable(policy), existing, policy.sensitive_paths, Reach::All).contains(
            path,
        ),
        0 <= i < policy.sensitive_paths.len(),
    ensures
        !paths::within(path, policy.sensitive_paths[i]),
        !paths::within(policy.sensitive_paths[i], path),
        paths::within(file, policy.sensitive_paths[i]) ==> !paths::within(file, path),
{
    let sensitive = policy.sensitive_paths;
    let good = |p: Seq<char>| existing.contains(p) && reach_of(p, sensitive) == Reach::All;
    listing::lemma_filter_has(baseline_read(), good);
    listing::lemma_filter_has(writable(policy), good);
    assert(good(path));
    if paths::within(file, sensitive[i]) {
        lemma_sensitive_stays_closed(path, sensitive, i, file);
    }
}

} // verus!
