//! The file that keeps the server's secret key.

use vstd::prelude::*;

use crate::key_files::{Action, Answer, Event, PathId, PRIVATE_KEY_FILE_MODE};
use crate::key_path::{resolve_key_path, resolving, resolving_is_bounded, Resolve, ResolveError};
use crate::key_permissions::{
    set_private_key_permissions, settling_is_bounded, PermissionError, Permissions,
};

verus! {

/// What went wrong with a key file after it was created.
#[derive(Clone, Copy, PartialEq, Eq, Structural, Debug)]
pub enum NewFileError {
    /// Its permissions were not settled.
    Permissions(PermissionError),
    /// It could not be written.
    Write,
}

/// Why a key file was not created.
#[derive(Clone, Copy, PartialEq, Eq, Structural, Debug)]
pub enum PrivateKeyError {
    /// The path of the file was not resolved.
    Resolve(ResolveError),
    /// The file at this path could not be created, such as because there is one.
    Create(PathId),
    /// The file was created and removed again.
    NewFile(NewFileError),
    /// The file at this path was created, and could not be removed again.
    Remove(PathId, NewFileError),
}

/// How far a key file is created.
#[derive(Clone, Copy, PartialEq, Eq, Structural, Debug)]
pub enum PrivateKeyStage {
    Resolving(Resolve),
    Create(PathId),
    Secure(PathId, Permissions),
    WriteText(PathId),
    Remove(PathId, NewFileError),
    /// The file holds the key, and only its owner can read it.
    Created,
    Failed(PrivateKeyError),
}

/// Creating a key file.
#[derive(Clone, Copy, PartialEq, Eq, Structural, Debug)]
pub struct PrivateKeyCreate {
    /// Whether files have a mode.
    pub unix: bool,
    pub stage: PrivateKeyStage,
}

impl PrivateKeyStage {
    /// The creation while its path is looked for, or after that.
    pub open spec fn from_search(search: Resolve) -> PrivateKeyStage {
        match search {
            Resolve::Resolved(path) => PrivateKeyStage::Create(path),
            Resolve::Failed(error) => PrivateKeyStage::Failed(PrivateKeyError::Resolve(error)),
            _ => PrivateKeyStage::Resolving(search),
        }
    }

    /// The creation while the permissions are settled, or after that.
    pub open spec fn from_permissions(path: PathId, permissions: Permissions) -> PrivateKeyStage {
        match permissions {
            Permissions::Settled => PrivateKeyStage::WriteText(path),
            Permissions::Failed(error) => PrivateKeyStage::Remove(
                path,
                NewFileError::Permissions(error),
            ),
            _ => PrivateKeyStage::Secure(path, permissions),
        }
    }

    /// A part that goes on is well formed, and one that has ended is over.
    pub open spec fn wf(self) -> bool {
        match self {
            PrivateKeyStage::Resolving(search) => search.wf() && search.request() is Some,
            PrivateKeyStage::Secure(path, permissions) => permissions.request() is Some
                && permissions != (Permissions::Inspect { newly_created: false }),
            _ => true,
        }
    }

    /// How many requests there can still be.
    pub open spec fn rank(self) -> nat {
        match self {
            PrivateKeyStage::Resolving(search) => search.rank() + 6,
            PrivateKeyStage::Create(path) => 6,
            PrivateKeyStage::Secure(path, permissions) => permissions.rank() + 2,
            PrivateKeyStage::WriteText(path) => 2,
            PrivateKeyStage::Remove(path, error) => 1,
            _ => 0,
        }
    }

    fn search(search: Resolve) -> (r: PrivateKeyStage)
        ensures
            r == PrivateKeyStage::from_search(search),
    {
        match search {
            Resolve::Resolved(path) => PrivateKeyStage::Create(path),
            Resolve::Failed(error) => PrivateKeyStage::Failed(PrivateKeyError::Resolve(error)),
            _ => PrivateKeyStage::Resolving(search),
        }
    }

    fn permissions(path: PathId, permissions: Permissions) -> (r: PrivateKeyStage)
        ensures
            r == PrivateKeyStage::from_permissions(path, permissions),
    {
        match permissions {
            Permissions::Settled => PrivateKeyStage::WriteText(path),
            Permissions::Failed(error) => PrivateKeyStage::Remove(
                path,
                NewFileError::Permissions(error),
            ),
            _ => PrivateKeyStage::Secure(path, permissions),
        }
    }
}

impl PrivateKeyCreate {
    /// The part that goes on is well formed.
    pub open spec fn wf(self) -> bool {
        self.stage.wf()
    }

    /// What is asked for in this state.
    pub open spec fn request(self) -> Option<Action> {
        match self.stage {
            PrivateKeyStage::Resolving(search) => search.request(),
            PrivateKeyStage::Create(path) => Some(Action::CreateNew(path, PRIVATE_KEY_FILE_MODE)),
            PrivateKeyStage::Secure(path, permissions) => permissions.request(),
            PrivateKeyStage::WriteText(path) => Some(Action::WriteKey),
            PrivateKeyStage::Remove(path, error) => Some(Action::Remove(path)),
            _ => None,
        }
    }

    /// The stage after an answer: the key is written to a file of its own, once nobody else can
    /// read that; what goes wrong after the file is there leads to its removal.
    pub open spec fn stage_after(self, answer: Answer) -> PrivateKeyStage {
        match (self.stage, answer) {
            (PrivateKeyStage::Resolving(search), _) => PrivateKeyStage::from_search(
                search.after(answer),
            ),
            (PrivateKeyStage::Create(path), Answer::Done) => if self.unix {
                PrivateKeyStage::Secure(path, Permissions::Inspect { newly_created: true })
            } else {
                PrivateKeyStage::WriteText(path)
            },
            (PrivateKeyStage::Create(path), _) => PrivateKeyStage::Failed(
                PrivateKeyError::Create(path),
            ),
            (PrivateKeyStage::Secure(path, permissions), _) => PrivateKeyStage::from_permissions(
                path,
                permissions.after(answer),
            ),
            (PrivateKeyStage::WriteText(path), Answer::Done) => PrivateKeyStage::Created,
            (PrivateKeyStage::WriteText(path), _) => PrivateKeyStage::Remove(
                path,
                NewFileError::Write,
            ),
            (PrivateKeyStage::Remove(path, error), Answer::Done) => PrivateKeyStage::Failed(
                PrivateKeyError::NewFile(error),
            ),
            (PrivateKeyStage::Remove(path, error), _) => PrivateKeyStage::Failed(
                PrivateKeyError::Remove(path, error),
            ),
            (done, _) => done,
        }
    }

    /// The state after an answer.
    pub open spec fn after(self, answer: Answer) -> PrivateKeyCreate {
        PrivateKeyCreate { stage: self.stage_after(answer), ..self }
    }

    /// What is asked for in this state.
    pub fn action(&self) -> (r: Option<Action>)
        ensures
            r == self.request(),
    {
        match &self.stage {
            PrivateKeyStage::Resolving(search) => search.action(),
            PrivateKeyStage::Create(path) => Some(Action::CreateNew(*path, PRIVATE_KEY_FILE_MODE)),
            PrivateKeyStage::Secure(path, permissions) => permissions.action(),
            PrivateKeyStage::WriteText(path) => Some(Action::WriteKey),
            PrivateKeyStage::Remove(path, error) => Some(Action::Remove(*path)),
            _ => None,
        }
    }

    /// Takes the answer to what was asked for.
    pub fn step(self, event: &Event) -> (r: PrivateKeyCreate)
        requires
            self.wf(),
        ensures
            r == self.after(event@),
            r.wf(),
    {
        let stage: PrivateKeyStage = match self.stage {
            PrivateKeyStage::Resolving(search) => PrivateKeyStage::search(search.step(event)),
            PrivateKeyStage::Create(path) => match event {
                Event::Done => if self.unix {
                    PrivateKeyStage::Secure(path, set_private_key_permissions(true))
                } else {
                    PrivateKeyStage::WriteText(path)
                },
                _ => PrivateKeyStage::Failed(PrivateKeyError::Create(path)),
            },
            PrivateKeyStage::Secure(path, permissions) => PrivateKeyStage::permissions(
                path,
                permissions.step(event),
            ),
            PrivateKeyStage::WriteText(path) => match event {
                Event::Done => PrivateKeyStage::Created,
                _ => PrivateKeyStage::Remove(path, NewFileError::Write),
            },
            PrivateKeyStage::Remove(path, error) => match event {
                Event::Done => PrivateKeyStage::Failed(PrivateKeyError::NewFile(error)),
                _ => PrivateKeyStage::Failed(PrivateKeyError::Remove(path, error)),
            },
            done => done,
        };
        PrivateKeyCreate { unix: self.unix, stage }
    }
}

/// Starts to create a key file at `path`.
pub fn create_private_key_file(path: PathId, unix: bool) -> (r: PrivateKeyCreate)
    ensures
        r == creating(path, unix),
        r.wf(),
{
    PrivateKeyCreate { unix, stage: PrivateKeyStage::Resolving(resolve_key_path(path)) }
}

/// The creation of a key file at `path`, before its first request.
pub open spec fn creating(path: PathId, unix: bool) -> PrivateKeyCreate {
    PrivateKeyCreate { unix, stage: PrivateKeyStage::Resolving(resolving(path)) }
}

/// Whatever the answers, each of them brings the end of a creation nearer.
pub proof fn creating_is_bounded(state: PrivateKeyCreate, answer: Answer)
    requires
        state.wf(),
        state.request() is Some,
    ensures
        state.after(answer).wf(),
        state.after(answer).stage.rank() < state.stage.rank(),
        state.stage.rank() <= 87,
{
    match state.stage {
        PrivateKeyStage::Resolving(search) => {
            resolving_is_bounded(search, answer);
        },
        PrivateKeyStage::Secure(path, permissions) => {
            settling_is_bounded(permissions, answer);
        },
        _ => {},
    }
}

}
