//! Laws of the calls of package managers: which of them go behind the proxy, and
//! with which arguments.

use vstd::prelude::*;

use crate::interceptor;
use crate::registry;
use crate::registry::{Ecosystem, ToolName};
use crate::text;

verus! {

/// A call of `npm`, `bun`, `yarn` or `pnpm` with one of the six subcommands that
/// install goes behind the proxy, whatever stands behind the subcommand.
pub proof fn law_javascript_installs(tool: ToolName, args: Seq<Seq<char>>)
    requires
        tool == ToolName::Npm || tool == ToolName::Bun || tool == ToolName::Yarn || tool
            == ToolName::Pnpm,
        args.len() > 0,
        args[0] == "install"@ || args[0] == "i"@ || args[0] == "ci"@ || args[0] == "add"@ || args[0]
            == "update"@ || args[0] == "upgrade"@,
    ensures
        interceptor::decided(Some(tool), args) == registry::Decision::Intercept(args),
        registry::decision_of(Ecosystem::Javascript, tool, args) == registry::Decision::Intercept(
            args,
        ),
{
}

/// A call of them with any other subcommand starts the tool directly, with its
/// arguments as they are.
pub proof fn law_javascript_others_pass(tool: ToolName, args: Seq<Seq<char>>)
    requires
        tool == ToolName::Npm || tool == ToolName::Bun || tool == ToolName::Yarn || tool
            == ToolName::Pnpm,
        args.len() > 0,
        args[0].len() > 0,
        args[0] != "install"@,
        args[0] != "i"@,
        args[0] != "ci"@,
        args[0] != "add"@,
        args[0] != "update"@,
        args[0] != "upgrade"@,
    ensures
        interceptor::decided(Some(tool), args) == registry::Decision::Passthrough(args),
        registry::decision_of(Ecosystem::Javascript, tool, args) == registry::Decision::Passthrough(
            args,
        ),
{
}

/// Two calls of one of them with the same first argument are treated alike.
pub proof fn law_javascript_first_argument_decides(
    tool: ToolName,
    args: Seq<Seq<char>>,
    others: Seq<Seq<char>>,
)
    requires
        tool == ToolName::Npm || tool == ToolName::Bun || tool == ToolName::Yarn || tool
            == ToolName::Pnpm,
        args.len() > 0,
        others.len() > 0,
        args[0] == others[0],
    ensures
        interceptor::decided(Some(tool), args) is Intercept <==> interceptor::decided(
            Some(tool),
            others,
        ) is Intercept,
{
}

/// Without arguments, or with an empty first one, `yarn` and `pnpm` install, and
/// `npm` and `bun` do not. `npx` and `bunx` always do.
pub proof fn law_javascript_bare_calls(args: Seq<Seq<char>>, any: Seq<Seq<char>>)
    requires
        args.len() == 0 || args[0].len() == 0,
    ensures
        interceptor::decided(Some(ToolName::Yarn), args) == registry::Decision::Intercept(args),
        interceptor::decided(Some(ToolName::Pnpm), args) == registry::Decision::Intercept(args),
        interceptor::decided(Some(ToolName::Npm), args) == registry::Decision::Passthrough(args),
        interceptor::decided(Some(ToolName::Bun), args) == registry::Decision::Passthrough(args),
        interceptor::decided(Some(ToolName::Npx), any) == registry::Decision::Intercept(any),
        interceptor::decided(Some(ToolName::Bunx), any) == registry::Decision::Intercept(any),
{
    reveal_strlit("install");
    assert("install"@.len() == 7);
    reveal_strlit("i");
    assert("i"@.len() == 1);
    reveal_strlit("ci");
    assert("ci"@.len() == 2);
    reveal_strlit("add");
    assert("add"@.len() == 3);
    reveal_strlit("update");
    assert("update"@.len() == 6);
    reveal_strlit("upgrade");
    assert("upgrade"@.len() == 7);
}

/// `pip` and `pip3` go behind the proxy to install, and for nothing else.
pub proof fn law_pip_calls(tool: ToolName, args: Seq<Seq<char>>)
    requires
        tool == ToolName::Pip || tool == ToolName::Pip3,
    ensures
        args.len() > 0 && args[0] == "install"@ ==> interceptor::decided(Some(tool), args)
            == registry::Decision::Intercept(args),
        args.len() == 0 || args[0] != "install"@ ==> interceptor::decided(Some(tool), args)
            == registry::Decision::Passthrough(args),
{
    reveal_strlit("install");
    assert("install"@.len() == 7);
}

/// `uv` goes behind the proxy to synchronise, to lock, to add, and to install as
/// `pip` does; to run something it does so with its lock file frozen. Whatever
/// else it is called for it does directly. `uvx` always goes behind the proxy.
pub proof fn law_uv_calls(args: Seq<Seq<char>>)
    ensures
        interceptor::decided(Some(ToolName::Uvx), args) == registry::Decision::Intercept(args),
        args.len() > 0 && (args[0] == "sync"@ || args[0] == "lock"@ || args[0] == "add"@)
            ==> interceptor::decided(Some(ToolName::Uv), args) == registry::Decision::Intercept(
            args,
        ),
        args.len() > 1 && args[0] == "pip"@ && args[1] == "install"@ ==> interceptor::decided(
            Some(ToolName::Uv),
            args,
        ) == registry::Decision::Intercept(args),
        args.len() > 0 && args[0] == "run"@ ==> interceptor::decided(Some(ToolName::Uv), args)
            == registry::Decision::Intercept(seq!["--frozen"@] + args),
        args.len() == 0 || (args[0] != "sync"@ && args[0] != "lock"@ && args[0] != "add"@
            && args[0] != "run"@ && !(args[0] == "pip"@ && args.len() > 1 && args[1] == "install"@))
            ==> interceptor::decided(Some(ToolName::Uv), args) == registry::Decision::Passthrough(
            args,
        ),
{
    registry::pypi::lemma_uv_words_differ();
    reveal_strlit("sync");
    assert("sync"@.len() == 4);
    reveal_strlit("lock");
    assert("lock"@.len() == 4);
    reveal_strlit("add");
    assert("add"@.len() == 3);
    reveal_strlit("pip");
    assert("pip"@.len() == 3);
    reveal_strlit("run");
    assert("run"@.len() == 3);
    reveal_strlit("install");
    assert("install"@.len() == 7);
}

/// `pipx` goes behind the proxy to install, run, upgrade, inject and reinstall,
/// and for nothing else.
pub proof fn law_pipx_calls(args: Seq<Seq<char>>)
    ensures
        args.len() > 0 && (args[0] == "install"@ || args[0] == "run"@ || args[0] == "upgrade"@
            || args[0] == "upgrade-all"@ || args[0] == "inject"@ || args[0] == "reinstall"@
            || args[0] == "reinstall-all"@) ==> interceptor::decided(Some(ToolName::Pipx), args)
            == registry::Decision::Intercept(args),
        args.len() == 0 || (args[0] != "install"@ && args[0] != "run"@ && args[0] != "upgrade"@
            && args[0] != "upgrade-all"@ && args[0] != "inject"@ && args[0] != "reinstall"@
            && args[0] != "reinstall-all"@) ==> interceptor::decided(Some(ToolName::Pipx), args)
            == registry::Decision::Passthrough(args),
{
    reveal_strlit("install");
    assert("install"@.len() == 7);
    reveal_strlit("run");
    assert("run"@.len() == 3);
    reveal_strlit("upgrade");
    assert("upgrade"@.len() == 7);
    reveal_strlit("upgrade-all");
    assert("upgrade-all"@.len() == 11);
    reveal_strlit("inject");
    assert("inject"@.len() == 6);
    reveal_strlit("reinstall");
    assert("reinstall"@.len() == 9);
    reveal_strlit("reinstall-all");
    assert("reinstall-all"@.len() == 13);
}

/// `poetry` goes behind the proxy to install, add, update and lock, and for
/// nothing else.
pub proof fn law_poetry_calls(args: Seq<Seq<char>>)
    ensures
        args.len() > 0 && (args[0] == "install"@ || args[0] == "add"@ || args[0] == "update"@
            || args[0] == "lock"@) ==> interceptor::decided(Some(ToolName::Poetry), args)
            == registry::Decision::Intercept(args),
        args.len() == 0 || (args[0] != "install"@ && args[0] != "add"@ && args[0] != "update"@
            && args[0] != "lock"@) ==> interceptor::decided(Some(ToolName::Poetry), args)
            == registry::Decision::Passthrough(args),
{
    reveal_strlit("install");
    assert("install"@.len() == 7);
    reveal_strlit("add");
    assert("add"@.len() == 3);
    reveal_strlit("update");
    assert("update"@.len() == 6);
    reveal_strlit("lock");
    assert("lock"@.len() == 4);
}

/// What no tool is known by is started directly, and no family decides on the
/// tools of the other.
pub proof fn law_strangers_pass(tool: ToolName, args: Seq<Seq<char>>)
    ensures
        interceptor::decided(None, args) == registry::Decision::Passthrough(args),
        match tool {
            ToolName::Npm
            | ToolName::Npx
            | ToolName::Bun
            | ToolName::Bunx
            | ToolName::Yarn
            | ToolName::Pnpm => {
                &&& registry::family(tool) == Ecosystem::Javascript
                &&& registry::decision_of(Ecosystem::Python, tool, args)
                    == registry::Decision::Passthrough(args)
            },
            ToolName::Pip
            | ToolName::Pip3
            | ToolName::Uv
            | ToolName::Uvx
            | ToolName::Pipx
            | ToolName::Poetry => {
                &&& registry::family(tool) == Ecosystem::Python
                &&& registry::decision_of(Ecosystem::Javascript, tool, args)
                    == registry::Decision::Passthrough(args)
            },
        },
{
}

/// Each tool is known by its command, in whatever case its letters are written,
/// and by nothing else.
pub proof fn law_tools_go_by_their_commands(name: Seq<char>, tool: Option<ToolName>)
    ensures
        interceptor::is_tool(name, tool) <==> match tool {
            Some(ToolName::Bun) => text::ascii_lower(name) == text::ascii_lower("bun"@),
            Some(ToolName::Bunx) => text::ascii_lower(name) == text::ascii_lower("bunx"@),
            Some(ToolName::Npm) => text::ascii_lower(name) == text::ascii_lower("npm"@),
            Some(ToolName::Npx) => text::ascii_lower(name) == text::ascii_lower("npx"@),
            Some(ToolName::Pnpm) => text::ascii_lower(name) == text::ascii_lower("pnpm"@),
            Some(ToolName::Yarn) => text::ascii_lower(name) == text::ascii_lower("yarn"@),
            Some(ToolName::Pip) => text::ascii_lower(name) == text::ascii_lower("pip"@),
            Some(ToolName::Pip3) => text::ascii_lower(name) == text::ascii_lower("pip3"@),
            Some(ToolName::Uv) => text::ascii_lower(name) == text::ascii_lower("uv"@),
            Some(ToolName::Uvx) => text::ascii_lower(name) == text::ascii_lower("uvx"@),
            Some(ToolName::Pipx) => text::ascii_lower(name) == text::ascii_lower("pipx"@),
            Some(ToolName::Poetry) => text::ascii_lower(name) == text::ascii_lower("poetry"@),
            None => forall|t: ToolName| !interceptor::is_tool(name, Some(t)),
        },
{
    if interceptor::is_tool(name, None) {
        assert forall|t: ToolName| !interceptor::is_tool(name, Some(t)) by {
            assert(text::ascii_lower(registry::command_of(t)) != text::ascii_lower(name));
        }
    }
    if forall|t: ToolName| !interceptor::is_tool(name, Some(t)) {
        assert forall|t: ToolName|
            text::ascii_lower(#[trigger] registry::command_of(t)) != text::ascii_lower(name) by {
            assert(!interceptor::is_tool(name, Some(t)));
        }
    }
}

} // verus!
