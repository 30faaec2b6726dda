//! What can go wrong when a recorder is installed.

use vstd::prelude::*;

verus! {

/// The operating system's error, as std reports it.
#[verifier::external_type_specification]
#[verifier::external_body]
pub struct ExIoError(std::io::Error);

/// Why a recorder could not be installed.
#[derive(Debug)]
pub enum BuildError {
    /// A global recorder was already installed.
    AlreadyInstalled,
    /// The poller thread could not be spawned.
    Spawn(std::io::Error),
}

impl From<std::io::Error> for BuildError {
    fn from(error: std::io::Error) -> (converted: Self) {
        BuildError::Spawn(error)
    }
}

impl vstd::std_specs::convert::FromSpecImpl<std::io::Error> for BuildError {
    open spec fn obeys_from_spec() -> bool {
        true
    }

    open spec fn from_spec(error: std::io::Error) -> Self {
        BuildError::Spawn(error)
    }
}

/// Formats an operating system error with std's `Display`. Nothing is claimed of the text: it can
/// come from the operating system.
#[verifier::external_body]
fn io_error_text(error: &std::io::Error) -> (text: String) {
    format!("{}", error)
}

/// The text of a failure to spawn the poller, with the operating system's own words.
pub fn spawn_failed_text(reason: &str) -> (text: String)
    ensures
        text@ == "failed to spawn the snapshot poller thread: "@ + reason@,
{
    let mut text = "failed to spawn the snapshot poller thread: ".to_owned();
    text.append(reason);
    text
}

impl BuildError {
    /// The error in words.
    pub fn message(&self) -> (text: String)
        ensures
            self is AlreadyInstalled ==> text@ == "a global metrics recorder is already installed"@,
            self is Spawn ==> "failed to spawn the snapshot poller thread: "@.is_prefix_of(text@),
    {
        match self {
            BuildError::AlreadyInstalled => {
                "a global metrics recorder is already installed".to_owned()
            },
            BuildError::Spawn(error) => {
                let reason = io_error_text(error);
                let text = spawn_failed_text(reason.as_str());
                assert("failed to spawn the snapshot poller thread: "@.is_prefix_of(text@));
                text
            },
        }
    }

    /// The error that caused this one, if there is one.
    pub fn source(&self) -> (cause: Option<&std::io::Error>)
        ensures
            *self matches BuildError::Spawn(error) ==> cause == Some(&error),
            self is AlreadyInstalled ==> cause is None,
    {
        match self {
            BuildError::Spawn(error) => Some(error),
            BuildError::AlreadyInstalled => None,
        }
    }
}

/// What has just happened while a recorder is being installed.
pub enum InstallEvent {
    /// The recorder was offered as the global one; `accepted` says whether there was none yet.
    RecorderOffered { accepted: bool },
    /// The poller thread was to be spawned.
    PollerSpawned(Result<(), std::io::Error>),
}

/// What is to be done next.
pub enum InstallAction {
    /// Spawn the poller thread.
    SpawnPoller,
    /// Nothing: the outcome is known.
    Finish(Result<(), BuildError>),
}

/// What follows `event`: the poller is spawned only for a recorder that was accepted, a recorder
/// that was not accepted means that another one is installed, and a failed spawn is passed on.
pub open spec fn install_step_spec(event: InstallEvent) -> InstallAction {
    match event {
        InstallEvent::RecorderOffered { accepted } => if accepted {
            InstallAction::SpawnPoller
        } else {
            InstallAction::Finish(Err(BuildError::AlreadyInstalled))
        },
        InstallEvent::PollerSpawned(Ok(_)) => InstallAction::Finish(Ok(())),
        InstallEvent::PollerSpawned(Err(error)) => InstallAction::Finish(
            Err(BuildError::Spawn(error)),
        ),
    }
}

/// What follows `event` while a recorder is being installed.
pub fn install_step(event: InstallEvent) -> (action: InstallAction)
    ensures
        action == install_step_spec(event),
{
    match event {
        InstallEvent::RecorderOffered { accepted } => if accepted {
            InstallAction::SpawnPoller
        } else {
            InstallAction::Finish(Err(BuildError::AlreadyInstalled))
        },
        InstallEvent::PollerSpawned(Ok(_)) => InstallAction::Finish(Ok(())),
        InstallEvent::PollerSpawned(Err(error)) => InstallAction::Finish(
            Err(BuildError::from(error)),
        ),
    }
}

/// A recorder that was accepted has its poller spawned, and only then. One that was not accepted
/// ends in `AlreadyInstalled`. A spawn that failed ends in its own error, and one that did not ends
/// the installation well.
pub proof fn installation_ends_as_its_steps_did(event: InstallEvent)
    ensures
        install_step_spec(event) is SpawnPoller <==> event == (InstallEvent::RecorderOffered {
            accepted: true,
        }),
        event == (InstallEvent::RecorderOffered { accepted: false }) ==> install_step_spec(event)
            == InstallAction::Finish(Err(BuildError::AlreadyInstalled)),
        event matches InstallEvent::PollerSpawned(Ok(_)) ==> install_step_spec(event)
            == InstallAction::Finish(Ok(())),
        event matches InstallEvent::PollerSpawned(Err(error)) ==> install_step_spec(event)
            == InstallAction::Finish(Err(BuildError::Spawn(error))),
{
}

} // verus!
