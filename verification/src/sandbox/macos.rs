//! The sandbox of macOS, made by `sandbox-exec`.

use vstd::prelude::*;

use super::{copy_pairs, Command, Policy, SandboxEnforcer, SandboxPolicy, WrappedCommand};
use crate::number;
use crate::number::decimal;
use crate::paths;
use crate::paths::join;
use crate::text;
use crate::text::copy_list;

verus! {

/// The program that runs another in a sandbox.
pub const SANDBOX_EXEC: &'static str = "/usr/bin/sandbox-exec";

/// The variable that tells a tool where the profile of its sandbox is.
pub const PROFILE_VARIABLE: &'static str = "__FARTHINDER_SBPL_PATH";

/// What runs commands under `sandbox-exec`, with the profile at the given path.
#[derive(Debug, Clone)]
pub struct MacosEnforcer {
    pub profile_path: String,
}

impl MacosEnforcer {
    /// Whether the system has a `sandbox-exec`.
    pub fn is_available(has_sandbox_exec: bool) -> (r: bool)
        ensures
            r == has_sandbox_exec,
    {
        has_sandbox_exec
    }
}

impl SandboxEnforcer for MacosEnforcer {
    open spec fn wrapped(&self, cmd: Command) -> Command {
        Command {
            program: SANDBOX_EXEC@,
            args: seq!["-f"@, self.profile_path@, cmd.program] + cmd.args,
            env: cmd.env.push((PROFILE_VARIABLE@, self.profile_path@)),
        }
    }

    fn wrap_command(&self, _policy: &SandboxPolicy, cmd: &WrappedCommand) -> (r: WrappedCommand) {
        let mut args = vec!["-f".to_string(), self.profile_path.clone(), cmd.program.clone()];
        let mut rest = copy_list(&cmd.args);
        let ghost tail = rest@;
        args.append(&mut rest);
        let mut env = copy_pairs(&cmd.env);
        let ghost before = text::pairs(env@);
        env.push((PROFILE_VARIABLE.to_string(), self.profile_path.clone()));
        assert(text::texts(args@) =~= seq!["-f"@, self.profile_path@, cmd.program@] + text::texts(
            tail,
        ));
        assert(text::pairs(env@) =~= before.push((PROFILE_VARIABLE@, self.profile_path@)));
        WrappedCommand { program: SANDBOX_EXEC.to_string(), args, env }
    }
}

/// Where the profile of a sandbox is written to.
pub open spec fn profile_location(temp_dir: Seq<char>, pid: u32) -> Seq<char> {
    paths::joined_path(
        paths::joined_path(temp_dir, "farthinder"@),
        "sbpl-"@ + number::decimal_of(pid as nat) + ".sbpl"@,
    )
}

/// Where the profile of a sandbox is written to.
pub fn sbpl_path(temp_dir: &str, pid: u32) -> (r: String)
    ensures
        r@ == profile_location(temp_dir@, pid),
{
    let mut name = "sbpl-".to_string();
    name.append(decimal(pid as usize).as_str());
    name.append(".sbpl");
    join(join(temp_dir, "farthinder").as_str(), name.as_str())
}

/// What a tool may do besides using files and the network.
pub const ALLOWED: &'static str =
    "\n(allow process*)\n(allow signal)\n(allow sysctl*)\n(allow mach*)\n(allow ipc*)\n(allow system-socket)\n(allow pseudo-tty)\n(allow file-ioctl)\n(allow file-read*)\n";

/// Where every tool may write.
pub const WRITABLE: &'static str =
    "\n    (subpath \"/tmp\")\n    (subpath \"/private/tmp\")\n    (subpath \"/private/var/tmp\")\n    (subpath \"/private/var/folders\")\n    (subpath \"/dev\"))\n";

/// The filter for everything at and below a path.
pub open spec fn subpath(path: Seq<char>) -> Seq<char> {
    "(subpath \""@ + path + "\")"@
}

/// The filters for everything at and below each of the paths, a line for each.
pub open spec fn subpaths(paths: Seq<Seq<char>>) -> Seq<char>
    decreases paths.len(),
{
    if paths.len() == 0 {
        seq![]
    } else {
        subpaths(paths.drop_last()) + "\n    "@ + subpath(paths.last())
    }
}

/// The rules that close the sensitive paths, if there are any.
pub open spec fn denials(sensitive: Seq<Seq<char>>) -> Seq<char> {
    if sensitive.len() == 0 {
        seq![]
    } else {
        "(deny file-read*"@ + subpaths(sensitive) + ")\n(deny file-write*"@ + subpaths(sensitive)
            + ")\n"@
    }
}

/// The filter for the port of the proxy.
pub open spec fn proxy_filter(port: u16) -> Seq<char> {
    "(remote tcp \"localhost:"@ + number::decimal_of(port as nat) + "\")"@
}

/// The profile for a policy. What no rule allows is denied, and a later rule
/// has the last word.
pub open spec fn profile(policy: Policy) -> Seq<char> {
    "(version 1)\n"@ + "(deny default)"@ + ALLOWED@ + "(allow file-write*"@ + subpaths(
        seq![policy.cwd, policy.home],
    ) + WRITABLE@ + denials(policy.sensitive_paths) + "(allow network-outbound\n    "@
        + proxy_filter(policy.proxy_port) + ")\n"@
}

fn write_subpaths(out: &mut String, paths: &Vec<String>)
    ensures
        final(out)@ == old(out)@ + subpaths(text::texts(paths@)),
{
    let ghost before = out@;
    let ghost all = text::texts(paths@);
    let mut i: usize = 0;
    assert(before + subpaths(all.take(0)) =~= before);
    while i < paths.len()
        invariant
            i <= paths@.len(),
            all == text::texts(paths@),
            out@ == before + subpaths(all.take(i as int)),
        decreases paths.len() - i,
    {
        assert(all.take(i + 1).drop_last() =~= all.take(i as int));
        out.append("\n    ");
        out.append("(subpath \"");
        out.append(paths[i].as_str());
        out.append("\")");
        assert(out@ =~= before + subpaths(all.take(i + 1)));
        i += 1;
    }
    assert(all.take(paths@.len() as int) =~= all);
}

/// The profile for a policy.
pub fn generate_sbpl(policy: &SandboxPolicy) -> (r: String)
    ensures
        r@ == profile(policy@),
{
    let mut out = "(version 1)\n".to_string();
    out.append("(deny default)");
    out.append(ALLOWED);
    out.append("(allow file-write*");
    let own = vec![policy.cwd.clone(), policy.home.clone()];
    assert(text::texts(own@) =~= seq![policy@.cwd, policy@.home]);
    write_subpaths(&mut out, &own);
    out.append(WRITABLE);
    let ghost before = out@;
    if policy.sensitive_paths.len() > 0 {
        out.append("(deny file-read*");
        write_subpaths(&mut out, &policy.sensitive_paths);
        out.append(")\n(deny file-write*");
        write_subpaths(&mut out, &policy.sensitive_paths);
        out.append(")\n");
    }
    assert(text::texts(policy.sensitive_paths@).len() == policy.sensitive_paths@.len());
    assert(out@ =~= before + denials(policy@.sensitive_paths));
    out.append("(allow network-outbound\n    ");
    out.append("(remote tcp \"localhost:");
    out.append(decimal(policy.proxy_port as usize).as_str());
    out.append("\")");
    out.append(")\n");
    assert(out@ =~= profile(policy@));
    out
}

proof fn lemma_occurs_within(a: Seq<char>, b: Seq<char>, c: Seq<char>, pat: Seq<char>)
    requires
        text::occurs(b, pat),
    ensures
        text::occurs(a + b + c, pat),
{
    let at = choose|at: int| text::occurs_at(b, pat, at);
    let s = a + b + c;
    assert(s.subrange(a.len() + at, a.len() + at + pat.len()) =~= b.subrange(at, at + pat.len()));
    assert(text::occurs_at(s, pat, a.len() + at));
}

proof fn lemma_occurs_itself(pat: Seq<char>)
    ensures
        text::occurs(pat, pat),
{
    assert(pat.subrange(0, pat.len() as int) =~= pat);
    assert(text::occurs_at(pat, pat, 0));
}

proof fn lemma_subpaths(paths: Seq<Seq<char>>, i: int)
    requires
        0 <= i < paths.len(),
    ensures
        text::occurs(subpaths(paths), subpath(paths[i])),
    decreases paths.len(),
{
    let init = subpaths(paths.drop_last());
    let last = subpath(paths.last());
    if i == paths.len() - 1 {
        lemma_occurs_itself(last);
        lemma_occurs_within(init + "\n    "@, last, seq![], last);
        assert(subpaths(paths) =~= init + "\n    "@ + last + seq![]);
    } else {
        lemma_subpaths(paths.drop_last(), i);
        lemma_occurs_within(seq![], init, "\n    "@ + last, subpath(paths[i]));
        assert(subpaths(paths) =~= seq![] + init + ("\n    "@ + last));
    }
}

/// Every profile holds the rule that denies what no other rule allows, and the
/// filter for the port of the proxy.
pub proof fn lemma_profile_denies_by_default(policy: Policy)
    ensures
        text::occurs(profile(policy), "(deny default)"@),
        text::occurs(profile(policy), proxy_filter(policy.proxy_port)),
{
    let a = "(version 1)\n"@;
    let b = "(deny default)"@;
    let middle = ALLOWED@ + "(allow file-write*"@ + subpaths(seq![policy.cwd, policy.home])
        + WRITABLE@ + denials(policy.sensitive_paths) + "(allow network-outbound\n    "@;
    let c = proxy_filter(policy.proxy_port);
    let d = ")\n"@;
    lemma_occurs_itself(b);
    lemma_occurs_itself(c);
    assert(profile(policy) =~= a + b + (middle + c + d));
    lemma_occurs_within(a, b, middle + c + d, b);
    assert(profile(policy) =~= (a + b + middle) + c + d);
    lemma_occurs_within(a + b + middle, c, d, c);
}

/// Every profile names each sensitive path in a rule that closes it for reading
/// and in one that closes it for writing.
pub proof fn lemma_profile_closes_sensitive_paths(policy: Policy, i: int)
    requires
        0 <= i < policy.sensitive_paths.len(),
    ensures
        ({
            let filters = subpaths(policy.sensitive_paths);
            &&& text::occurs(filters, subpath(policy.sensitive_paths[i]))
            &&& text::occurs(profile(policy), "(deny file-read*"@ + filters + ")"@)
            &&& text::occurs(profile(policy), "(deny file-write*"@ + filters + ")"@)
        }),
{
    let filters = subpaths(policy.sensitive_paths);
    lemma_subpaths(policy.sensitive_paths, i);
    let before = "(version 1)\n"@ + "(deny default)"@ + ALLOWED@ + "(allow file-write*"@ + subpaths(
        seq![policy.cwd, policy.home],
    ) + WRITABLE@;
    let behind = "(allow network-outbound\n    "@ + proxy_filter(policy.proxy_port) + ")\n"@;
    let read = "(deny file-read*"@ + filters + ")"@;
    let write = "(deny file-write*"@ + filters + ")"@;
    reveal_strlit(")\n(deny file-write*");
    reveal_strlit("(deny file-write*");
    reveal_strlit(")\n");
    reveal_strlit(")");
    reveal_strlit("\n");
    assert(")\n(deny file-write*"@ =~= ")"@ + "\n"@ + "(deny file-write*"@);
    assert(")\n"@ =~= ")"@ + "\n"@);
    let rest = "\n"@ + write + "\n"@ + behind;
    assert(profile(policy) =~= before + read + rest);
    lemma_occurs_itself(read);
    lemma_occurs_within(before, read, rest, read);
    assert(profile(policy) =~= (before + read + "\n"@) + write + ("\n"@ + behind));
    lemma_occurs_itself(write);
    lemma_occurs_within(before + read + "\n"@, write, "\n"@ + behind, write);
}

/// A sandboxed command still starts the program it was given, with its
/// arguments in their order, and keeps its variables.
pub proof fn lemma_command_kept(enforcer: MacosEnforcer, cmd: Command)
    ensures
        enforcer.wrapped(cmd).args.skip(2) == seq![cmd.program] + cmd.args,
        enforcer.wrapped(cmd).env.take(cmd.env.len() as int) == cmd.env,
{
    assert(enforcer.wrapped(cmd).args.skip(2) =~= seq![cmd.program] + cmd.args);
    assert(enforcer.wrapped(cmd).env.take(cmd.env.len() as int) =~= cmd.env);
}

} // verus!
