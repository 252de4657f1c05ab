//! The command line of `prune` as plain values, and the decisions that turn
//! a parsed command into a build plan or a server configuration.

use vstd::prelude::*;
use vstd::std_specs::convert::FromSpecImpl;

use crate::android::{AndroidPlan, AndroidProfile};
use crate::mods::{issue_of, spec_dependency_order, spec_issue_message, ActiveProjectConfig, DependencyError, ModGraph};
use crate::server::ServerConfig;
use crate::workspace::WorkspacePaths;

verus! {

/// `prune <command>`
#[derive(Debug)]
pub struct Cli {
    pub command: Commands,
}

#[derive(Debug)]
pub enum Commands {
    /// Check the local SoupRune workspace.
    Doctor,
    /// Plan or run Android build and deploy stages.
    Android(AndroidCommand),
    /// Inspect and manage local mods.
    Mod(ModCommand),
    /// Serve the HTTP API used by the Android client.
    Server(ServerCommand),
}

/// `prune android <action> [--mod NAME] [--device SERIAL] [--profile P]`
#[derive(Debug)]
pub struct AndroidCommand {
    pub action: AndroidAction,
    /// Overrides the active mod of `projects/config.toml`.
    pub mod_name: Option<String>,
    /// ADB device serial.
    pub device: Option<String>,
    /// Build profile for mod assets and native code (release by default).
    pub profile: CliProfile,
}

#[derive(Clone, Copy, Debug, PartialEq, Eq, Structural)]
pub enum AndroidAction {
    /// Check Android-related environment assumptions.
    Doctor,
    /// Print the build/deploy command stages without executing them.
    Plan,
    /// Execute the build/deploy stages.
    Deploy,
}

/// `prune mod <action>`
#[derive(Debug)]
pub struct ModCommand {
    pub action: ModAction,
}

#[derive(Clone, Copy, Debug, PartialEq, Eq, Structural)]
pub enum ModAction {
    /// List discovered local mods.
    List,
}

/// `prune server --token TOKEN [--host H] [--port P] [--build-script PATH]`
#[derive(Debug)]
pub struct ServerCommand {
    pub host: String,
    pub port: u16,
    pub token: String,
    /// Build script, relative to the workspace root unless absolute;
    /// `android/build.sh` by default.
    pub build_script: String,
}

#[derive(Clone, Copy, Debug, PartialEq, Eq, Structural)]
pub enum CliProfile {
    Debug,
    Release,
}

pub open spec fn spec_profile_of(value: CliProfile) -> AndroidProfile {
    match value {
        CliProfile::Debug => AndroidProfile::Debug,
        CliProfile::Release => AndroidProfile::Release,
    }
}

impl From<CliProfile> for AndroidProfile {
    fn from(value: CliProfile) -> (profile: Self) {
        match value {
            CliProfile::Debug => AndroidProfile::Debug,
            CliProfile::Release => AndroidProfile::Release,
        }
    }
}

impl FromSpecImpl<CliProfile> for AndroidProfile {
    open spec fn obeys_from_spec() -> bool {
        true
    }

    open spec fn from_spec(v: CliProfile) -> AndroidProfile {
        spec_profile_of(v)
    }
}

/// Whether `prune android plan|deploy` has to read `projects/config.toml`:
/// only when no `--mod` was given.
pub fn needs_active_config(command: &AndroidCommand) -> (b: bool)
    ensures
        b == command.mod_name is None,
{
    command.mod_name.is_none()
}

/// The mod that a plan is built for: the one named by `--mod`, else the
/// active mod of `projects/config.toml`, else none.
pub open spec fn spec_plan_mod(command: AndroidCommand, config: Option<ActiveProjectConfig>) -> Option<
    Seq<char>,
> {
    match command.mod_name {
        Some(name) => Some(name@),
        None => match config {
            Some(c) => Some(c.mod_name@),
            None => None,
        },
    }
}

/// Why no plan could be built.
#[derive(Debug)]
pub enum PlanError {
    /// Neither `--mod` nor `projects/config.toml` names a mod.
    NoActiveMod,
    /// The chosen mod has no load order.
    Dependency(DependencyError),
}

impl PlanError {
    /// The error as text.
    pub fn message(&self) -> (text: String)
        ensures
            text@ == match *self {
                PlanError::NoActiveMod => "no active mod: pass --mod or set project.mod_name in projects/config.toml"@,
                PlanError::Dependency(e) => spec_issue_message(issue_of(e)),
            },
    {
        match self {
            PlanError::NoActiveMod => {
                "no active mod: pass --mod or set project.mod_name in projects/config.toml".to_owned()
            },
            PlanError::Dependency(e) => e.message(),
        }
    }
}

/// The plan of `prune android plan|deploy`: the mod named by `--mod`, or
/// else the active mod of `config` (`projects/config.toml`, which the
/// caller reads only when [`needs_active_config`] says so), with its load
/// order in `graph`, built under the workspace root.
pub fn build_android_plan(
    command: &AndroidCommand,
    workspace: &WorkspacePaths,
    config: Option<ActiveProjectConfig>,
    graph: &ModGraph,
) -> (plan: Result<AndroidPlan, PlanError>)
    ensures
        match spec_plan_mod(*command, config) {
            None => plan matches Err(PlanError::NoActiveMod),
            Some(name) => match spec_dependency_order(graph@, name) {
                Ok(order) => plan matches Ok(p) && p.spec_root() == workspace@ && p.spec_mod_name()
                    == name && p.spec_mod_order() == order && p.spec_profile() == spec_profile_of(
                    command.profile,
                ) && p.spec_device() == crate::process::option_view(command.device),
                Err(issue) => plan matches Err(PlanError::Dependency(e)) && issue_of(e) == issue,
            },
        },
{
    let mod_name = match &command.mod_name {
        Some(name) => name.clone(),
        None => match config {
            Some(c) => c.mod_name,
            None => {
                return Err(PlanError::NoActiveMod);
            },
        },
    };
    let order = match graph.dependency_order(mod_name.as_str()) {
        Ok(order) => order,
        Err(e) => {
            return Err(PlanError::Dependency(e));
        },
    };
    let device = match &command.device {
        Some(d) => Some(d.clone()),
        None => None,
    };
    let profile = AndroidProfile::from(command.profile);
    Ok(AndroidPlan::new(workspace.root().to_owned(), mod_name, order, profile, device))
}

/// The server configuration of `prune server`, serving the workspace root.
pub fn server_config(command: ServerCommand, workspace: &WorkspacePaths) -> (config: ServerConfig)
    ensures
        config.host == command.host,
        config.port == command.port,
        config.token == command.token,
        config.build_script == command.build_script,
        config.repo_root@ == workspace@,
{
    ServerConfig {
        host: command.host,
        port: command.port,
        repo_root: workspace.root().to_owned(),
        token: command.token,
        build_script: command.build_script,
    }
}

} // verus!
