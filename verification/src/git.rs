//! Setting up a Git repository in a new project: what to run next, given
//! how the last step went.
use vstd::prelude::*;

verus! {

/// The next thing to do.
#[derive(PartialEq, Eq, Structural, Clone, Copy, Debug)]
pub enum GitAction {
    /// Run `git --version`.
    CheckGit,
    /// See whether the project already has a `.git`.
    CheckRepository,
    /// Run `git init`.
    Init,
    /// Run `git add .`.
    AddAll,
    /// Run `git commit -m "Initial commit"`.
    Commit,
    /// Stop.
    Stop,
}

/// How the last step went.
#[derive(PartialEq, Eq, Structural, Clone, Copy, Debug)]
pub enum GitEvent {
    /// The command could not be started.
    NotStarted,
    /// The command ran, and succeeded or not.
    Finished(bool),
    /// Whether a `.git` is there.
    RepositoryFound(bool),
}

/// What to tell the user along the way.
#[derive(PartialEq, Eq, Structural, Clone, Copy, Debug)]
pub enum GitMessage {
    Nothing,
    GitMissing,
    AlreadyRepository,
    InitFailed,
    AddFailed,
    Committed,
    CommitFailed,
}

/// The step after `action`, given what happened, and the message to show:
/// without Git, or in an existing repository, nothing is done; a command
/// that fails stops the setup; one that cannot be started is passed over.
pub open spec fn spec_git_step(action: GitAction, event: GitEvent) -> (GitAction, GitMessage) {
    match action {
        GitAction::CheckGit => match event {
            GitEvent::NotStarted => (GitAction::Stop, GitMessage::GitMissing),
            _ => (GitAction::CheckRepository, GitMessage::Nothing),
        },
        GitAction::CheckRepository => match event {
            GitEvent::RepositoryFound(true) => (GitAction::Stop, GitMessage::AlreadyRepository),
            _ => (GitAction::Init, GitMessage::Nothing),
        },
        GitAction::Init => match event {
            GitEvent::Finished(false) => (GitAction::Stop, GitMessage::InitFailed),
            _ => (GitAction::AddAll, GitMessage::Nothing),
        },
        GitAction::AddAll => match event {
            GitEvent::Finished(false) => (GitAction::Stop, GitMessage::AddFailed),
            _ => (GitAction::Commit, GitMessage::Nothing),
        },
        GitAction::Commit => match event {
            GitEvent::Finished(true) => (GitAction::Stop, GitMessage::Committed),
            GitEvent::Finished(false) => (GitAction::Stop, GitMessage::CommitFailed),
            _ => (GitAction::Stop, GitMessage::Nothing),
        },
        GitAction::Stop => (GitAction::Stop, GitMessage::Nothing),
    }
}

pub fn git_step(action: GitAction, event: GitEvent) -> (r: (GitAction, GitMessage))
    ensures
        r == spec_git_step(action, event),
{
    match action {
        GitAction::CheckGit => match event {
            GitEvent::NotStarted => (GitAction::Stop, GitMessage::GitMissing),
            _ => (GitAction::CheckRepository, GitMessage::Nothing),
        },
        GitAction::CheckRepository => match event {
            GitEvent::RepositoryFound(true) => (GitAction::Stop, GitMessage::AlreadyRepository),
            _ => (GitAction::Init, GitMessage::Nothing),
        },
        GitAction::Init => match event {
            GitEvent::Finished(false) => (GitAction::Stop, GitMessage::InitFailed),
            _ => (GitAction::AddAll, GitMessage::Nothing),
        },
        GitAction::AddAll => match event {
            GitEvent::Finished(false) => (GitAction::Stop, GitMessage::AddFailed),
            _ => (GitAction::Commit, GitMessage::Nothing),
        },
        GitAction::Commit => match event {
            GitEvent::Finished(true) => (GitAction::Stop, GitMessage::Committed),
            GitEvent::Finished(false) => (GitAction::Stop, GitMessage::CommitFailed),
            _ => (GitAction::Stop, GitMessage::Nothing),
        },
        GitAction::Stop => (GitAction::Stop, GitMessage::Nothing),
    }
}

/// The order of the steps, first to last.
pub open spec fn step_rank(a: GitAction) -> nat {
    match a {
        GitAction::CheckGit => 0,
        GitAction::CheckRepository => 1,
        GitAction::Init => 2,
        GitAction::AddAll => 3,
        GitAction::Commit => 4,
        GitAction::Stop => 5,
    }
}

/// Every step moves forward, so the setup ends within five steps whatever happens.
pub proof fn lemma_git_steps_advance(action: GitAction, event: GitEvent)
    requires
        action != GitAction::Stop,
    ensures
        step_rank(spec_git_step(action, event).0) > step_rank(action),
{
}

} // verus!
