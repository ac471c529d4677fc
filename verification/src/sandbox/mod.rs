//! The sandbox that a tool runs in.

use vstd::prelude::*;

pub mod linux;
pub mod macos;
pub mod nop;

use crate::listing;
use crate::paths;
use crate::paths::join;
use crate::text;
use crate::text::{copy_list, listed};
use self::linux::LandlockEnforcer;
use self::macos::MacosEnforcer;

verus! {

/// What a tool may reach: the proxy, its working directory and the home
/// directory, but not the sensitive paths.
#[derive(Debug, Clone)]
pub struct SandboxPolicy {
    pub proxy_port: u16,
    pub cwd: String,
    pub home: String,
    pub sensitive_paths: Vec<String>,
}

/// What a tool may reach.
pub struct Policy {
    pub proxy_port: u16,
    pub cwd: Seq<char>,
    pub home: Seq<char>,
    pub sensitive_paths: Seq<Seq<char>>,
}

impl View for SandboxPolicy {
    type V = Policy;

    open spec fn view(&self) -> Policy {
        Policy {
            proxy_port: self.proxy_port,
            cwd: self.cwd@,
            home: self.home@,
            sensitive_paths: text::texts(self.sensitive_paths@),
        }
    }
}

/// A program to start, its arguments, and the variables to start it with.
#[derive(Debug, Clone)]
pub struct WrappedCommand {
    pub program: String,
    pub args: Vec<String>,
    pub env: Vec<(String, String)>,
}

/// A program to start, its arguments, and the variables to start it with.
pub struct Command {
    pub program: Seq<char>,
    pub args: Seq<Seq<char>>,
    pub env: Seq<(Seq<char>, Seq<char>)>,
}

impl View for WrappedCommand {
    type V = Command;

    open spec fn view(&self) -> Command {
        Command {
            program: self.program@,
            args: text::texts(self.args@),
            env: text::pairs(self.env@),
        }
    }
}

/// A copy of the pairs.
pub(crate) fn copy_pairs(list: &Vec<(String, String)>) -> (r: Vec<(String, String)>)
    ensures
        text::pairs(r@) == text::pairs(list@),
{
    let mut out: Vec<(String, String)> = Vec::new();
    let mut i: usize = 0;
    while i < list.len()
        invariant
            i <= list@.len(),
            text::pairs(out@) == text::pairs(list@).take(i as int),
        decreases list.len() - i,
    {
        let ghost before = text::pairs(out@);
        let ghost next = text::pairs(list@)[i as int];
        out.push((list[i].0.clone(), list[i].1.clone()));
        assert(text::pairs(out@) =~= before.push(next));
        assert(text::pairs(list@).take(i + 1) =~= before.push(next));
        i += 1;
    }
    assert(text::pairs(list@).take(list@.len() as int) =~= text::pairs(list@));
    out
}

impl WrappedCommand {
    /// The same command.
    pub(crate) fn copy(&self) -> (r: WrappedCommand)
        ensures
            r@ == self@,
    {
        WrappedCommand {
            program: self.program.clone(),
            args: copy_list(&self.args),
            env: copy_pairs(&self.env),
        }
    }
}

/// What turns a command into one that runs in a sandbox.
pub trait SandboxEnforcer {
    /// The command that runs `cmd` in the sandbox.
    spec fn wrapped(&self, cmd: Command) -> Command;

    /// The command that runs `cmd` in the sandbox.
    fn wrap_command(&self, policy: &SandboxPolicy, cmd: &WrappedCommand) -> (r: WrappedCommand)
        ensures
            r@ == self.wrapped(cmd@),
    ;
}

/// The systems that differ in their sandboxes.
#[derive(Debug, Clone, Copy, PartialEq, Eq, Structural)]
pub enum Platform {
    Macos,
    Linux,
    Other,
}

/// The sandbox of one of the systems that have one.
#[derive(Debug, Clone)]
pub enum Enforcer {
    Macos(MacosEnforcer),
    Landlock(LandlockEnforcer),
}

impl SandboxEnforcer for Enforcer {
    open spec fn wrapped(&self, cmd: Command) -> Command {
        match self {
            Enforcer::Macos(e) => e.wrapped(cmd),
            Enforcer::Landlock(e) => e.wrapped(cmd),
        }
    }

    fn wrap_command(&self, policy: &SandboxPolicy, cmd: &WrappedCommand) -> (r: WrappedCommand) {
        match self {
            Enforcer::Macos(e) => e.wrap_command(policy, cmd),
            Enforcer::Landlock(e) => e.wrap_command(policy, cmd),
        }
    }
}

/// The sandbox of this system, if it has one that works. `has_sandbox_exec`
/// tells whether there is a `sandbox-exec`, `landlock_version` is what the
/// kernel answers when asked for its version of Landlock, and `profile_path`
/// is where the profile of the sandbox is written to.
pub fn get_enforcer(
    platform: Platform,
    has_sandbox_exec: bool,
    landlock_version: i64,
    profile_path: &str,
) -> (r: Option<Enforcer>)
    ensures
        match platform {
            Platform::Macos => if has_sandbox_exec {
                r matches Some(Enforcer::Macos(e)) && e.profile_path@ == profile_path@
            } else {
                r is None
            },
            Platform::Linux => r == if landlock_version >= 4 {
                Some(Enforcer::Landlock(LandlockEnforcer))
            } else {
                None
            },
            Platform::Other => r is None,
        },
{
    match platform {
        Platform::Macos => if MacosEnforcer::is_available(has_sandbox_exec) {
            Some(Enforcer::Macos(MacosEnforcer { profile_path: profile_path.to_string() }))
        } else {
            None
        },
        Platform::Linux => if LandlockEnforcer::is_available(landlock_version) {
            Some(Enforcer::Landlock(LandlockEnforcer))
        } else {
            None
        },
        Platform::Other => None,
    }
}

/// The directories of secrets under a home directory.
pub open spec fn secret_directories(home: Seq<char>) -> Seq<Seq<char>> {
    seq![
        paths::joined_path(home, ".ssh"@),
        paths::joined_path(home, ".aws"@),
        paths::joined_path(home, ".gnupg"@),
        paths::joined_path(paths::joined_path(home, ".config"@), "gcloud"@),
        paths::joined_path(home, ".kube"@),
    ]
}

/// The files under a home directory that hold secrets where they exist.
pub open spec fn secret_files(home: Seq<char>) -> Seq<Seq<char>> {
    seq![
        paths::joined_path(home, ".env"@),
        paths::joined_path(home, ".env.local"@),
        paths::joined_path(home, ".env.production"@),
        paths::joined_path(home, ".env.production.local"@),
    ]
}

/// The paths under a home directory that a tool must not read.
pub open spec fn secrets(home: Seq<char>, existing: Seq<Seq<char>>) -> Seq<Seq<char>> {
    secret_directories(home) + secret_files(home).filter(|p: Seq<char>| existing.contains(p))
}

/// The files under a home directory that hold secrets where they exist.
pub fn env_files(home: &str) -> (r: Vec<String>)
    ensures
        text::texts(r@) == secret_files(home@),
{
    let r = vec![
        join(home, ".env"),
        join(home, ".env.local"),
        join(home, ".env.production"),
        join(home, ".env.production.local"),
    ];
    assert(text::texts(r@) =~= secret_files(home@));
    r
}

/// The paths under a home directory that a tool must not read, where `existing`
/// holds those of the files with secrets that there are.
pub fn sensitive_paths(home: &str, existing: &Vec<String>) -> (r: Vec<String>)
    ensures
        text::texts(r@) == secrets(home@, text::texts(existing@)),
{
    let mut out = vec![
        join(home, ".ssh"),
        join(home, ".aws"),
        join(home, ".gnupg"),
        join(join(home, ".config").as_str(), "gcloud"),
        join(home, ".kube"),
    ];
    assert(text::texts(out@) =~= secret_directories(home@));
    let files = env_files(home);
    let ghost all = secret_files(home@);
    let ghost good = |p: Seq<char>| text::texts(existing@).contains(p);
    let mut i: usize = 0;
    proof {
        listing::lemma_filter_ends(all, good);
        assert(secret_directories(home@) + all.take(0).filter(good) =~= secret_directories(home@));
    }
    while i < files.len()
        invariant
            i <= files@.len(),
            all == text::texts(files@),
            good == (|p: Seq<char>| text::texts(existing@).contains(p)),
            text::texts(out@) == secret_directories(home@) + all.take(i as int).filter(good),
        decreases files.len() - i,
    {
        proof {
            listing::lemma_filter_step(all, i as int, good);
        }
        let ghost before = text::texts(out@);
        if listed(existing, files[i].as_str()) {
            out.push(files[i].clone());
            assert(text::texts(out@) =~= before.push(all[i as int]));
            assert(text::texts(out@) =~= secret_directories(home@) + all.take(i + 1).filter(good));
        }
        i += 1;
    }
    proof {
        listing::lemma_filter_ends(all, good);
    }
    out
}

} // verus!
