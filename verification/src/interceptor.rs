//! A call of a shim: which program it stands for, and how to run that program.

use vstd::prelude::*;

use crate::config::AppConfig;
use crate::listing;
use crate::number;
use crate::number::decimal;
use crate::paths;
use crate::paths::{file_name, join, same_path};
use crate::registry;
use crate::registry::{Ecosystem, InterceptDecision, Registry, RegistryStats, ToolName};
use crate::sandbox;
use crate::sandbox::{Enforcer, SandboxEnforcer, SandboxPolicy, WrappedCommand};
use crate::target;
use crate::text;
use crate::text::{listed, split};

verus! {

/// Why a call of a shim goes nowhere.
#[derive(Debug, Clone)]
pub enum InterceptError {
    /// The program was started without a name.
    NoName,
    /// The name that the program was started with has no last part.
    InvalidName,
    /// Nothing on the search path stands behind the shim of this name.
    NoTarget(String),
    /// A sandbox is required, and there is none.
    NoSandbox,
}

/// Why a call of a shim goes nowhere.
pub enum Failure {
    NoName,
    InvalidName,
    NoTarget(Seq<char>),
    NoSandbox,
}

impl View for InterceptError {
    type V = Failure;

    open spec fn view(&self) -> Failure {
        match self {
            InterceptError::NoName => Failure::NoName,
            InterceptError::InvalidName => Failure::InvalidName,
            InterceptError::NoTarget(name) => Failure::NoTarget(name@),
            InterceptError::NoSandbox => Failure::NoSandbox,
        }
    }
}

/// What there is to say of a failure.
pub open spec fn message_of(failure: Failure) -> Seq<char> {
    match failure {
        Failure::NoName => "no argv[0]"@,
        Failure::InvalidName => "invalid exe name"@,
        Failure::NoTarget(name) => "no target executable for "@ + name,
        Failure::NoSandbox =>
            "sandbox is required but no kernel enforcer is available on this platform"@,
    }
}

impl InterceptError {
    /// What there is to say of it.
    pub fn message(&self) -> (r: String)
        ensures
            r@ == message_of(self@),
    {
        match self {
            InterceptError::NoName => "no argv[0]".to_string(),
            InterceptError::InvalidName => "invalid exe name".to_string(),
            InterceptError::NoTarget(name) => {
                let mut out = "no target executable for ".to_string();
                out.append(name.as_str());
                out
            },
            InterceptError::NoSandbox => {
                "sandbox is required but no kernel enforcer is available on this platform".to_string()
            },
        }
    }
}

/// The name of the tool that the shim was called as.
pub open spec fn called_as(arg0: Option<Seq<char>>) -> Result<Seq<char>, Failure> {
    match arg0 {
        None => Err(Failure::NoName),
        Some(arg0) => match paths::last_step(arg0) {
            None => Err(Failure::InvalidName),
            Some(name) => Ok(name),
        },
    }
}

/// The name of the tool that the shim was called as.
pub fn tool_name(arg0: &Option<String>) -> (r: Result<String, InterceptError>)
    ensures
        match called_as(target::text_view(*arg0)) {
            Ok(name) => r is Ok && r->Ok_0@ == name,
            Err(e) => r is Err && r->Err_0@ == e,
        },
{
    match arg0 {
        None => Err(InterceptError::NoName),
        Some(arg0) => match file_name(arg0.as_str()) {
            None => Err(InterceptError::InvalidName),
            Some(name) => Ok(name),
        },
    }
}

/// The directories of a search path that hold something of this name, where
/// `existing` holds the places at which there is something.
pub open spec fn holders(
    path_var: Seq<char>,
    name: Seq<char>,
    existing: Seq<Seq<char>>,
) -> Seq<Seq<char>> {
    text::split_on(path_var, ':').filter(
        |dir: Seq<char>| existing.contains(paths::joined_path(dir, name)),
    )
}

/// The program that the shim stands for: the first of its name on the search
/// path, or the second if the first is the shim itself.
pub open spec fn target_of(
    path_var: Seq<char>,
    shim_dir: Seq<char>,
    name: Seq<char>,
    existing: Seq<Seq<char>>,
) -> Option<Seq<char>> {
    let dirs = holders(path_var, name, existing);
    if dirs.len() == 0 {
        None
    } else if !paths::same_place(dirs[0], shim_dir) {
        Some(paths::joined_path(dirs[0], name))
    } else if dirs.len() == 1 {
        None
    } else {
        Some(paths::joined_path(dirs[1], name))
    }
}

/// The program that the shim stands for, where `existing` holds the places on
/// the search path at which there is something of this name.
pub fn find_target_executable(
    path_var: &str,
    shim_dir: &str,
    name: &str,
    existing: &Vec<String>,
) -> (r: Result<String, InterceptError>)
    ensures
        match target_of(path_var@, shim_dir@, name@, text::texts(existing@)) {
            Some(path) => r is Ok && r->Ok_0@ == path,
            None => r is Err && r->Err_0@ == Failure::NoTarget(name@),
        },
{
    let dirs = split(path_var, ':');
    let ghost all = text::split_on(path_var@, ':');
    let ghost good = |dir: Seq<char>|
        text::texts(existing@).contains(paths::joined_path(dir, name@));
    let mut found_shim = false;
    let ghost mut shim: Seq<char> = seq![];
    let mut i: usize = 0;
    proof {
        listing::lemma_filter_ends(all, good);
    }
    while i < dirs.len()
        invariant
            i <= dirs@.len(),
            all == text::texts(dirs@),
            all == text::split_on(path_var@, ':'),
            good == (|dir: Seq<char>|
                text::texts(existing@).contains(paths::joined_path(dir, name@))),
            found_shim ==> all.take(i as int).filter(good) == seq![shim] && paths::same_place(
                shim,
                shim_dir@,
            ),
            !found_shim ==> all.take(i as int).filter(good) == Seq::<Seq<char>>::empty(),
        decreases dirs.len() - i,
    {
        proof {
            listing::lemma_filter_step(all, i as int, good);
            listing::lemma_filter_prefix(all, i + 1, good);
        }
        let path = join(dirs[i].as_str(), name);
        if listed(existing, path.as_str()) {
            if !found_shim && same_path(dirs[i].as_str(), shim_dir) {
                found_shim = true;
                proof {
                    shim = all[i as int];
                    assert(all.take(i + 1).filter(good) =~= seq![shim]);
                }
            } else {
                proof {
                    let dirs = holders(path_var@, name@, text::texts(existing@));
                    let part = all.take(i + 1).filter(good);
                    assert(dirs == all.filter(good));
                    assert(part =~= dirs.subrange(0, part.len() as int));
                    if found_shim {
                        assert(part =~= seq![shim, all[i as int]]);
                        assert(dirs[0] == part[0] && dirs[1] == part[1]);
                    } else {
                        assert(part =~= seq![all[i as int]]);
                        assert(dirs[0] == part[0]);
                    }
                }
                return Ok(path);
            }
        }
        i += 1;
    }
    proof {
        listing::lemma_filter_ends(all, good);
    }
    Err(InterceptError::NoTarget(name.to_string()))
}

/// A call of a shim: the program that it stands for, the name it was called by,
/// and the tool and its family, if it is one that is known.
#[derive(Debug, Clone)]
pub struct Interceptor {
    target: String,
    arg0: String,
    tool: Option<ToolName>,
    ecosystem: Option<Ecosystem>,
}

/// A call of a shim.
pub struct Call {
    pub target: Seq<char>,
    pub arg0: Seq<char>,
    pub tool: Option<ToolName>,
}

impl View for Interceptor {
    type V = Call;

    closed spec fn view(&self) -> Call {
        Call { target: self.target@, arg0: self.arg0@, tool: self.tool }
    }
}

/// Whether `tool` is the tool of this name, in whatever case its letters are written.
pub open spec fn is_tool(name: Seq<char>, tool: Option<ToolName>) -> bool {
    match tool {
        Some(t) => text::ascii_lower(registry::command_of(t)) == text::ascii_lower(name),
        None => forall|t: ToolName|
            text::ascii_lower(#[trigger] registry::command_of(t)) != text::ascii_lower(name),
    }
}

impl Interceptor {
    /// Whether the family is that of the tool.
    pub closed spec fn wf(&self) -> bool {
        self.ecosystem == match self.tool {
            Some(t) => Some(registry::family(t)),
            None => None,
        }
    }

    /// The call of a shim that was started by this name, on this search path,
    /// from this directory of shims. `existing` holds the places on the search
    /// path at which there is something of the name.
    pub fn new(
        arg0: Option<String>,
        path_var: &str,
        shim_dir: &str,
        existing: &Vec<String>,
    ) -> (r: Result<Interceptor, InterceptError>)
        ensures
            match called_as(target::text_view(arg0)) {
                Err(e) => r is Err && r->Err_0@ == e,
                Ok(name) => match target_of(
                    path_var@,
                    shim_dir@,
                    name,
                    text::texts(existing@),
                ) {
                    None => r is Err && r->Err_0@ == Failure::NoTarget(name),
                    Some(path) => {
                        &&& r is Ok
                        &&& r->Ok_0.wf()
                        &&& r->Ok_0@.target == path
                        &&& r->Ok_0@.arg0 == arg0->Some_0@
                        &&& is_tool(name, r->Ok_0@.tool)
                    },
                },
            },
    {
        let name = match tool_name(&arg0) {
            Ok(name) => name,
            Err(e) => {
                return Err(e);
            },
        };
        let target = match find_target_executable(path_var, shim_dir, name.as_str(), existing) {
            Ok(target) => target,
            Err(e) => {
                return Err(e);
            },
        };
        let tool = ToolName::from_command(name.as_str());
        let ecosystem = match tool {
            Some(t) => t.ecosystem(),
            None => None,
        };
        match arg0 {
            Some(arg0) => Ok(Interceptor { target, arg0, tool, ecosystem }),
            None => Err(InterceptError::NoName),
        }
    }

    /// The program that the shim stands for.
    pub fn target(&self) -> (r: &str)
        ensures
            r@ == self@.target,
    {
        self.target.as_str()
    }

    /// The name that the shim was called by.
    pub fn arg0(&self) -> (r: &str)
        ensures
            r@ == self@.arg0,
    {
        self.arg0.as_str()
    }

    /// The family of the tool, if it is one that is known.
    pub fn ecosystem(&self) -> (r: Option<Ecosystem>)
        requires
            self.wf(),
        ensures
            r == match self@.tool {
                Some(t) => Some(registry::family(t)),
                None => None,
            },
    {
        self.ecosystem
    }

    /// Whether to start the program directly or behind the proxy. One that is no
    /// known tool is started directly.
    pub fn decide(&self, args: Vec<String>) -> (r: InterceptDecision)
        requires
            self.wf(),
        ensures
            r@ == decided(self@.tool, text::texts(args@)),
    {
        match (self.tool, self.ecosystem) {
            (Some(tool), Some(ecosystem)) => ecosystem.decide(tool, args),
            _ => InterceptDecision::Passthrough(args),
        }
    }

    /// The command that runs the program behind the proxy, in the sandbox if
    /// there is one.
    pub fn command(
        &self,
        args: Vec<String>,
        proxy_env: Vec<(String, String)>,
        config: &AppConfig,
        policy: &SandboxPolicy,
        enforcer: &Option<Enforcer>,
    ) -> (r: Result<WrappedCommand, InterceptError>)
        ensures
            ({
                let plain = sandbox::Command {
                    program: self@.target,
                    args: text::texts(args@),
                    env: text::pairs(proxy_env@),
                };
                match enforcer {
                    Some(e) => r is Ok && r->Ok_0@ == e.wrapped(plain),
                    None => if config.sandbox_required {
                        r is Err && r->Err_0@ == Failure::NoSandbox
                    } else {
                        r is Ok && r->Ok_0@ == plain
                    },
                }
            }),
    {
        let plain = WrappedCommand { program: self.target.clone(), args, env: proxy_env };
        match enforcer {
            Some(e) => Ok(e.wrap_command(policy, &plain)),
            None => if config.sandbox_required {
                Err(InterceptError::NoSandbox)
            } else {
                Ok(plain)
            },
        }
    }
}

/// A shim never stands for itself, as long as its directory is only once on the
/// search path.
pub proof fn lemma_target_is_no_shim(
    path_var: Seq<char>,
    shim_dir: Seq<char>,
    name: Seq<char>,
    existing: Seq<Seq<char>>,
)
    requires
        ({
            let dirs = holders(path_var, name, existing);
            forall|i: int, j: int|
                0 <= i < j < dirs.len() ==> !(paths::same_place(#[trigger] dirs[i], shim_dir)
                    && paths::same_place(#[trigger] dirs[j], shim_dir))
        }),
    ensures
        match target_of(path_var, shim_dir, name, existing) {
            Some(path) => exists|i: int|
                {
                    &&& 0 <= i < holders(path_var, name, existing).len()
                    &&& path == paths::joined_path(
                        #[trigger] holders(path_var, name, existing)[i],
                        name,
                    )
                    &&& !paths::same_place(holders(path_var, name, existing)[i], shim_dir)
                },
            None => true,
        },
{
    let dirs = holders(path_var, name, existing);
    if dirs.len() > 0 && !paths::same_place(dirs[0], shim_dir) {
        assert(target_of(path_var, shim_dir, name, existing) == Some(
            paths::joined_path(dirs[0], name),
        ));
    } else if dirs.len() > 1 {
        assert(!paths::same_place(dirs[1], shim_dir));
    }
}

/// What to do with a call of a tool, if it is one that is known.
pub open spec fn decided(tool: Option<ToolName>, args: Seq<Seq<char>>) -> registry::Decision {
    match tool {
        Some(t) => registry::decision_of(registry::family(t), t, args),
        None => registry::Decision::Passthrough(args),
    }
}

/// What there is to tell of a run, if there is anything: what the registry has
/// done, and how many connections were not looked into.
pub fn run_stats(registry: &Registry, tunneled: usize) -> (r: Option<RegistryStats>)
    ensures
        match r {
            Some(stats) => {
                &&& registry@.checked > 0 || tunneled > 0
                &&& stats.connections_tunneled == tunneled
                &&& stats.packages_checked == registry@.checked
                &&& registry::quarantined_views(stats.packages_quarantined@) == registry@.quarantined
                &&& stats.downloads_blocked@.len() == 0
            },
            None => registry@.checked <= 0 && tunneled == 0,
        },
{
    let mut stats = registry.stats();
    stats.connections_tunneled = tunneled;
    if stats.active() {
        Some(stats)
    } else {
        None
    }
}

/// Where the certificate of the proxy is kept for a tool to read.
pub open spec fn certificate_path(temp_dir: Seq<char>, pid: u32) -> Seq<char> {
    paths::joined_path(
        paths::joined_path(temp_dir, "farthinder"@),
        "ca-"@ + number::decimal_of(pid as nat) + ".pem"@,
    )
}

/// Where the certificate of the proxy is kept for a tool to read.
pub fn ca_cert_path(temp_dir: &str, pid: u32) -> (r: String)
    ensures
        r@ == certificate_path(temp_dir@, pid),
{
    let mut name = "ca-".to_string();
    name.append(decimal(pid as usize).as_str());
    name.append(".pem");
    join(join(temp_dir, "farthinder").as_str(), name.as_str())
}

/// Whether the program was started by its own name, not as a shim.
pub fn is_own_name(exe_name: &str) -> (r: bool)
    ensures
        r == (exe_name@ == "fart"@),
{
    text::same(exe_name, "fart")
}

} // verus!
