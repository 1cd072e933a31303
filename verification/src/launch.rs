//! The launcher's part that decides: from a request to the plan of one
//! process invocation.

use vstd::prelude::*;
use crate::environment::{keys_unique, mapping_of, EnvMap};

verus! {

/// A request to launch a process.
#[derive(Debug)]
pub struct SpawnRequest {
    pub command: String,
    pub arguments: Vec<String>,
    pub working_directory: Option<String>,
    pub argv0_override: Option<String>,
    /// Where present, the whole environment of the process; where absent, the
    /// process inherits the launcher's.
    pub environment: Option<EnvMap>,
}

/// Where a standard stream of the process goes.
#[derive(Clone, Copy, Debug, PartialEq, Eq, Structural)]
pub enum StdioMode {
    /// Into a pipe that the launcher reads.
    Piped,
    /// To the launcher's own stream.
    Inherited,
}

/// What the process gets for an environment.
#[derive(Debug, PartialEq, Eq)]
pub enum EnvPolicy {
    /// The launcher's environment, unchanged.
    Inherit,
    /// These variables and no others.
    Replace(Vec<(String, String)>),
}

/// One process invocation, settled in every part.
#[derive(Debug, PartialEq, Eq)]
pub struct LaunchPlan {
    pub program: String,
    pub args: Vec<String>,
    pub env: EnvPolicy,
    pub cwd: Option<String>,
    pub arg0: Option<String>,
    pub stdout: StdioMode,
    pub stderr: StdioMode,
}

/// Why a process could not be started: the operating system's error number,
/// where it gave one, and its message.
#[derive(Debug, PartialEq, Eq)]
pub struct LaunchError {
    pub os_code: Option<i32>,
    pub message: String,
}

/// The environment policy that a request asks for.
pub open spec fn policy_matches(environment: Option<EnvMap>, policy: EnvPolicy) -> bool {
    match (environment, policy) {
        (Some(env), EnvPolicy::Replace(pairs)) => keys_unique(pairs@) && mapping_of(pairs@)
            == env@,
        (None, EnvPolicy::Inherit) => true,
        _ => false,
    }
}

/// Plans the invocation for a request: the command with its arguments, the
/// working directory and the name override where given, the environment
/// replaced where the request has one and inherited where it has none, and
/// both output streams piped.
pub fn plan(request: SpawnRequest) -> (planned: LaunchPlan)
    ensures
        planned.program == request.command,
        planned.args == request.arguments,
        planned.cwd == request.working_directory,
        planned.arg0 == request.argv0_override,
        policy_matches(request.environment, planned.env),
        planned.stdout == StdioMode::Piped,
        planned.stderr == StdioMode::Piped,
{
    let env = match request.environment {
        Some(env) => EnvPolicy::Replace(env.into_entries()),
        None => EnvPolicy::Inherit,
    };
    LaunchPlan {
        program: request.command,
        args: request.arguments,
        env,
        cwd: request.working_directory,
        arg0: request.argv0_override,
        stdout: StdioMode::Piped,
        stderr: StdioMode::Piped,
    }
}

} // verus!
