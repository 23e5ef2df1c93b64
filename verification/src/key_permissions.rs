//! Keeping a secret key's file to its owner.

use vstd::prelude::*;

use crate::key_files::{Action, Answer, Event, PERMISSION_BITS, PRIVATE_KEY_FILE_MODE};

verus! {

/// Why the permissions of a key file were not settled.
#[derive(Clone, Copy, PartialEq, Eq, Structural, Debug)]
pub enum PermissionError {
    /// The mode of the file could not be read.
    Read,
    /// The file was created with these permissions, which give more than they may.
    UnsafeInitial(u32),
    /// The permissions could not be set.
    Restrict,
    /// The permissions are these after they were set.
    Unexpected(u32),
}

/// Settling the permissions of the key file.
#[derive(Clone, Copy, PartialEq, Eq, Structural, Debug)]
pub enum Permissions {
    /// Read the mode of the file, which was created for this or was there before.
    Inspect { newly_created: bool },
    /// Set the permissions.
    Restrict,
    /// Read the mode again.
    Confirm,
    Settled,
    Failed(PermissionError),
}

/// The permissions in a file's mode.
pub open spec fn permissions_in(mode: u32) -> u32 {
    mode & PERMISSION_BITS
}

/// Whether permissions give nobody but the owner anything, and the owner no more than to read and
/// to write.
pub open spec fn is_private(permissions: u32) -> bool {
    permissions & !PRIVATE_KEY_FILE_MODE == 0
}

impl Permissions {
    /// What is asked for in this state.
    pub open spec fn request(self) -> Option<Action> {
        match self {
            Permissions::Inspect { newly_created } => Some(Action::ReadMode),
            Permissions::Restrict => Some(Action::SetMode(PRIVATE_KEY_FILE_MODE)),
            Permissions::Confirm => Some(Action::ReadMode),
            _ => None,
        }
    }

    /// The state after an answer. A file that was there may have fewer permissions than it could; a
    /// new one has exactly `PRIVATE_KEY_FILE_MODE` in the end, and never had more.
    pub open spec fn after(self, answer: Answer) -> Permissions {
        match (self, answer) {
            (Permissions::Inspect { newly_created }, Answer::Mode(mode)) => {
                let found = permissions_in(mode);
                if newly_created && !is_private(found) {
                    Permissions::Failed(PermissionError::UnsafeInitial(found))
                } else if found == PRIVATE_KEY_FILE_MODE || (!newly_created && is_private(found)) {
                    Permissions::Settled
                } else {
                    Permissions::Restrict
                }
            },
            (Permissions::Inspect { newly_created }, _) => Permissions::Failed(
                PermissionError::Read,
            ),
            (Permissions::Restrict, Answer::Done) => Permissions::Confirm,
            (Permissions::Restrict, _) => Permissions::Failed(PermissionError::Restrict),
            (Permissions::Confirm, Answer::Mode(mode)) => if permissions_in(mode)
                == PRIVATE_KEY_FILE_MODE {
                Permissions::Settled
            } else {
                Permissions::Failed(PermissionError::Unexpected(permissions_in(mode)))
            },
            (Permissions::Confirm, _) => Permissions::Failed(PermissionError::Read),
            (done, _) => done,
        }
    }

    /// How many requests there can still be.
    pub open spec fn rank(self) -> nat {
        match self {
            Permissions::Inspect { newly_created } => 3,
            Permissions::Restrict => 2,
            Permissions::Confirm => 1,
            _ => 0,
        }
    }

    /// What is asked for in this state.
    pub fn action(&self) -> (r: Option<Action>)
        ensures
            r == self.request(),
    {
        match *self {
            Permissions::Inspect { newly_created } => Some(Action::ReadMode),
            Permissions::Restrict => Some(Action::SetMode(PRIVATE_KEY_FILE_MODE)),
            Permissions::Confirm => Some(Action::ReadMode),
            _ => None,
        }
    }

    /// Takes the answer to what was asked for.
    pub fn step(self, event: &Event) -> (r: Permissions)
        ensures
            r == self.after(event@),
    {
        match self {
            Permissions::Inspect { newly_created } => match event {
                Event::Mode(mode) => {
                    let found: u32 = *mode & PERMISSION_BITS;
                    let private: bool = found & !PRIVATE_KEY_FILE_MODE == 0;
                    if !newly_created && private {
                        return Permissions::Settled;
                    }
                    if newly_created && !private {
                        return Permissions::Failed(PermissionError::UnsafeInitial(found));
                    }
                    if found != PRIVATE_KEY_FILE_MODE {
                        Permissions::Restrict
                    } else {
                        Permissions::Settled
                    }
                },
                _ => Permissions::Failed(PermissionError::Read),
            },
            Permissions::Restrict => match event {
                Event::Done => Permissions::Confirm,
                _ => Permissions::Failed(PermissionError::Restrict),
            },
            Permissions::Confirm => match event {
                Event::Mode(mode) => {
                    let found: u32 = *mode & PERMISSION_BITS;
                    if found == PRIVATE_KEY_FILE_MODE {
                        Permissions::Settled
                    } else {
                        Permissions::Failed(PermissionError::Unexpected(found))
                    }
                },
                _ => Permissions::Failed(PermissionError::Read),
            },
            done => done,
        }
    }
}

/// Starts to settle the permissions of the key file.
pub fn set_private_key_permissions(newly_created: bool) -> (r: Permissions)
    ensures
        r == (Permissions::Inspect { newly_created }),
{
    Permissions::Inspect { newly_created }
}

/// Permissions are private exactly where they are some of the owner's reading and writing.
pub proof fn private_permissions(permissions: u32)
    ensures
        is_private(permissions) <==> (permissions == 0 || permissions == 0o200 || permissions
            == 0o400 || permissions == 0o600),
{
    assert(permissions & !0o600u32 == 0 <==> (permissions == 0 || permissions == 0o200
        || permissions == 0o400 || permissions == 0o600)) by (bit_vector);
}

/// Permissions are settled only on a file whose mode, as it was read last, is private; on a new
/// file only where it is exactly `PRIVATE_KEY_FILE_MODE`.
pub proof fn settled_is_private(state: Permissions, answer: Answer)
    requires
        state.request() is Some,
        state.after(answer) is Settled,
    ensures
        answer is Mode,
        is_private(permissions_in(answer->Mode_0)),
        state == (Permissions::Inspect { newly_created: false }) || permissions_in(answer->Mode_0)
            == PRIVATE_KEY_FILE_MODE,
{
    private_permissions(PRIVATE_KEY_FILE_MODE);
}

/// Settling permissions ends after at most three answers.
pub proof fn settling_is_bounded(state: Permissions, answer: Answer)
    requires
        state.request() is Some,
    ensures
        state.after(answer).rank() < state.rank(),
        state.rank() <= 3,
{
}

}
