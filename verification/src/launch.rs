//! The launch dispatcher, split at the process boundary: this module
//! decides, the caller acts. `launch_plan` turns a chosen entry into the
//! one outside step to perform (start a registry application, print an
//! identifier, spawn a command), and `launch_result` turns that step's
//! outcome into the typed result and the history write that is owed. Only a
//! successful registry launch records history; menu-sourced launches never
//! touch it.

use vstd::prelude::*;

use crate::list_item::{wf_entry, Entry, LaunchV};
use crate::text::{byte_views, clone_byte_list, clone_bytes};

verus! {

/// Why a launch failed.
pub enum LaunchError {
    /// The identifier resolved to no registry application.
    UnknownApplication,
    /// Writing to the output stream failed.
    Io,
    /// Spawning the command failed; the message says why.
    Spawn(Vec<u8>),
}

/// The one outside step a launch asks the caller to perform.
pub enum LaunchStep {
    /// Resolve the identifier in the application registry and start it.
    SpawnRegistryApp(Vec<u8>),
    /// Write the identifier and a newline to standard output.
    PrintId(Vec<u8>),
    /// Spawn the first element as program with the rest as arguments,
    /// detached.
    SpawnCommand(Vec<Vec<u8>>),
}

/// How the outside step went, as the caller reports it.
pub enum StepOutcome {
    /// The step succeeded.
    Success,
    /// The identifier resolved to no registry application.
    ResolveFailed,
    /// The output stream failed.
    IoFailed,
    /// The process could not be spawned; the message says why.
    SpawnFailed(Vec<u8>),
}

/// What a successful launch still owes the history store.
pub enum LaunchEffect {
    /// Record this identifier, because a registry application was launched.
    RecordHistory(Vec<u8>),
    /// Record nothing: the launch was not registry-sourced.
    NoRecord,
}

/// The step a chosen entry asks for, by its action kind.
pub fn launch_plan(e: &Entry) -> (r: LaunchStep)
    requires
        wf_entry(e@),
    ensures
        e@.action is DesktopApp ==> (r matches LaunchStep::SpawnRegistryApp(id) && id@
            == e@.id),
        e@.action is Echo ==> (r matches LaunchStep::PrintId(id) && id@ == e@.id),
        e@.action matches LaunchV::Exec(argv) ==> (r matches LaunchStep::SpawnCommand(a)
            && byte_views(a@) == argv && a@.len() >= 1),
{
    match &e.action {
        crate::list_item::Launch::DesktopApp => LaunchStep::SpawnRegistryApp(
            clone_bytes(&e.id),
        ),
        crate::list_item::Launch::Echo => LaunchStep::PrintId(clone_bytes(&e.id)),
        crate::list_item::Launch::Exec(argv) => LaunchStep::SpawnCommand(
            clone_byte_list(argv),
        ),
    }
}

/// The launch result and the history write owed, from the entry and the
/// outcome of its step: success is success, each failure maps to its typed
/// error, and only a successful registry launch records its identifier.
pub fn launch_result(e: &Entry, outcome: StepOutcome) -> (r: Result<
    LaunchEffect,
    LaunchError,
>)
    ensures
        outcome is Success && e@.action is DesktopApp ==> (r matches Ok(
            LaunchEffect::RecordHistory(id),
        ) && id@ == e@.id),
        outcome is Success && !(e@.action is DesktopApp) ==> r matches Ok(
            LaunchEffect::NoRecord,
        ),
        outcome is ResolveFailed ==> r matches Err(LaunchError::UnknownApplication),
        outcome is IoFailed ==> r matches Err(LaunchError::Io),
        outcome matches StepOutcome::SpawnFailed(m) ==> (r matches Err(
            LaunchError::Spawn(c),
        ) && c@ == m@),
{
    match outcome {
        StepOutcome::Success => {
            match &e.action {
                crate::list_item::Launch::DesktopApp => Ok(
                    LaunchEffect::RecordHistory(clone_bytes(&e.id)),
                ),
                _ => Ok(LaunchEffect::NoRecord),
            }
        },
        StepOutcome::ResolveFailed => Err(LaunchError::UnknownApplication),
        StepOutcome::IoFailed => Err(LaunchError::Io),
        StepOutcome::SpawnFailed(m) => Err(LaunchError::Spawn(m)),
    }
}

} // verus!

