//! What a BitForge invocation does, decided from its arguments and manifest.

use vstd::prelude::*;

use crate::args::AppArgs;
use crate::config::BitForgeConfig;

verus! {

/// The command an invocation runs.
#[derive(Debug)]
pub enum RunAction {
    Version,
    Update { beta: bool },
    Init,
    DependencyAdd(String),
    DependencyRemove(String),
    AddLayer(String),
    RemoveLayer(String),
    /// Open the project and serve the web UI.
    Serve,
}

/// The first requested command, in this order: version, update, init,
/// dependency add, dependency remove, add layer, remove layer; else serve.
pub open spec fn run_action_spec(args: AppArgs) -> RunAction {
    if args.version_requested {
        RunAction::Version
    } else if args.update_requested {
        RunAction::Update { beta: args.beta }
    } else if args.init_requested {
        RunAction::Init
    } else if args.dependency_add_spec is Some {
        RunAction::DependencyAdd(args.dependency_add_spec->0)
    } else if args.dependency_remove_name is Some {
        RunAction::DependencyRemove(args.dependency_remove_name->0)
    } else if args.add_layer_name is Some {
        RunAction::AddLayer(args.add_layer_name->0)
    } else if args.remove_layer_name is Some {
        RunAction::RemoveLayer(args.remove_layer_name->0)
    } else {
        RunAction::Serve
    }
}

/// The command an invocation runs: the first one requested, with what the
/// arguments give it.
pub fn plan_run(args: &AppArgs) -> (r: RunAction)
    ensures
        r == run_action_spec(*args),
        args.version_requested ==> r is Version,
        !args.version_requested && args.update_requested ==> r == (RunAction::Update {
            beta: args.beta,
        }),
        !args.version_requested && !args.update_requested && args.init_requested ==> r is Init,
        !args.version_requested && !args.update_requested && !args.init_requested
            && args.dependency_add_spec is Some ==> r == RunAction::DependencyAdd(
            args.dependency_add_spec->0,
        ),
        !args.version_requested && !args.update_requested && !args.init_requested
            && args.dependency_add_spec is None && args.dependency_remove_name is Some ==> r
            == RunAction::DependencyRemove(args.dependency_remove_name->0),
        !args.version_requested && !args.update_requested && !args.init_requested
            && args.dependency_add_spec is None && args.dependency_remove_name is None
            && args.add_layer_name is Some ==> r == RunAction::AddLayer(args.add_layer_name->0),
        !args.version_requested && !args.update_requested && !args.init_requested
            && args.dependency_add_spec is None && args.dependency_remove_name is None
            && args.add_layer_name is None && args.remove_layer_name is Some ==> r
            == RunAction::RemoveLayer(args.remove_layer_name->0),
        !args.version_requested && !args.update_requested && !args.init_requested
            && args.dependency_add_spec is None && args.dependency_remove_name is None
            && args.add_layer_name is None && args.remove_layer_name is None ==> r is Serve,
{
    if args.version_requested {
        RunAction::Version
    } else if args.update_requested {
        RunAction::Update { beta: args.beta }
    } else if args.init_requested {
        RunAction::Init
    } else if let Some(spec) = &args.dependency_add_spec {
        RunAction::DependencyAdd(spec.clone())
    } else if let Some(name) = &args.dependency_remove_name {
        RunAction::DependencyRemove(name.clone())
    } else if let Some(name) = &args.add_layer_name {
        RunAction::AddLayer(name.clone())
    } else if let Some(name) = &args.remove_layer_name {
        RunAction::RemoveLayer(name.clone())
    } else {
        RunAction::Serve
    }
}

/// An update runs on the channel the command line asks for: `--beta` picks
/// the beta channel, its absence the stable one, whatever else is asked for
/// after `--update`; only `--version` comes first.
pub proof fn law_update_keeps_the_channel(args: AppArgs)
    requires
        args.update_requested,
        !args.version_requested,
    ensures
        run_action_spec(args) == (RunAction::Update { beta: args.beta }),
        run_action_spec(args) matches RunAction::Update { beta } && beta == args.beta,
{
}

/// `--version` wins over every other request, and with no request at all the
/// web UI is served.
pub proof fn law_version_first_serve_last(args: AppArgs)
    ensures
        args.version_requested ==> run_action_spec(args) is Version,
        !args.version_requested && !args.update_requested && !args.init_requested
            && args.dependency_add_spec is None && args.dependency_remove_name is None
            && args.add_layer_name is None && args.remove_layer_name is None
            ==> run_action_spec(args) is Serve,
{
}

impl RunAction {
    /// Commands after `--init` need the project to be tracked by git.
    pub fn needs_git_project(&self) -> (r: bool)
        ensures
            r == !(self is Version || self is Update || self is Init),
    {
        match self {
            RunAction::Version | RunAction::Update { .. } | RunAction::Init => false,
            _ => true,
        }
    }
}

/// The message when `--build` names no target and the project has no
/// default image.
pub open spec fn no_default_image_message() -> Seq<char> {
    "No default image set. Add a [default] image to BitForge.toml or run `BitForge --build <image|layer>`"@
}

/// What `--build` builds: the target it names, else the default image; no
/// build without `--build`.
pub fn build_target_for(args: &AppArgs, config: &BitForgeConfig) -> (r: Result<Option<String>, String>)
    ensures
        !args.build_requested ==> r == Ok::<Option<String>, String>(None),
        args.build_requested && args.build_target is Some ==> r == Ok::<Option<String>, String>(
            args.build_target,
        ),
        args.build_requested && args.build_target is None ==> match config.default_image_spec() {
            Some(image) => r matches Ok(Some(t)) && t@ == image,
            None => r matches Err(e) && e@ == no_default_image_message(),
        },
{
    if !args.build_requested {
        return Ok(None);
    }
    match &args.build_target {
        Some(t) => Ok(Some(t.clone())),
        None => match config.default_image() {
            Some(image) => Ok(Some(image)),
            None => Err(
                String::from_str(
                    "No default image set. Add a [default] image to BitForge.toml or run `BitForge --build <image|layer>`",
                ),
            ),
        },
    }
}

} // verus!
