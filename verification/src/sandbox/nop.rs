//! No sandbox.

use vstd::prelude::*;

use super::{Command, SandboxEnforcer, SandboxPolicy, WrappedCommand};

verus! {

/// What runs commands as they are.
#[derive(Debug, Clone, Copy)]
pub struct NopEnforcer;

impl SandboxEnforcer for NopEnforcer {
    open spec fn wrapped(&self, cmd: Command) -> Command {
        cmd
    }

    fn wrap_command(&self, _policy: &SandboxPolicy, cmd: &WrappedCommand) -> (r: WrappedCommand) {
        cmd.copy()
    }
}

} // verus!
