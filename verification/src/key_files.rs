//! What the key procedures ask of the file system, and what it answers.
//!
//! Each procedure is a machine. Its state names the next request; the answer to that request gives
//! the next state. Whoever runs a machine carries out the requests, so that none of the decisions
//! lie there.

use vstd::prelude::*;

verus! {

/// A path, by the number under which whoever runs a machine keeps it.
pub type PathId = u64;

/// The file that holds the secret key, in the working directory.
pub const PRIVATE_KEY_NAME: &'static str = "id_ed25519";

/// The file that holds the public key, beside it.
pub const PUBLIC_KEY_NAME: &'static str = "id_ed25519.pub";

/// The path of `PRIVATE_KEY_NAME`.
pub const PRIVATE_KEY_PATH: PathId = 0;

/// The path of `PUBLIC_KEY_NAME`.
pub const PUBLIC_KEY_PATH: PathId = 1;

/// The permissions of a secret key's file: its owner reads and writes it, nobody else does either.
pub const PRIVATE_KEY_FILE_MODE: u32 = 0o600;

/// The part of a file's mode that holds its permissions.
pub const PERMISSION_BITS: u32 = 0o7777;

/// What a machine asks for.
#[derive(Clone, Copy, PartialEq, Eq, Structural, Debug)]
pub enum Action {
    /// Tell whether the file at this path exists.
    Exists(PathId),
    /// Wait for this many milliseconds.
    Sleep(u64),
    /// Open the existing file at this path for reading, as the key file.
    Open(PathId),
    /// Create a new file at this path, as the key file, with these permissions from the first
    /// moment where files have a mode. A file or a link that is there already is left alone.
    CreateNew(PathId, u32),
    /// Read the mode of the key file.
    ReadMode,
    /// Set the permissions of the key file.
    SetMode(u32),
    /// Read all of the key file as text.
    ReadKey,
    /// Write the text of the secret key to the key file.
    WriteKey,
    /// Close the key file and remove the file at this path.
    Remove(PathId),
    /// Tell what is at this path itself, without following a link there.
    Inspect(PathId),
    /// Read the link at this path, and number the path that it leads to.
    FollowLink(PathId),
    /// Read all of the file at this path as text.
    ReadText(PathId),
    /// Create a temporary file, under a new name, in the directory of this path.
    CreateTemporary(PathId),
    /// Read the mode of the temporary file.
    ReadTemporaryMode,
    /// Set the permissions of the temporary file.
    SetTemporaryMode(u32),
    /// Write the text of the public key to the temporary file.
    WriteTemporary,
    /// Bring the temporary file to the disk.
    SyncTemporary,
    /// Close the temporary file and give it this path. What is there already is left alone.
    Publish(PathId),
    /// Close the temporary file and remove it.
    DiscardTemporary,
}

/// What comes back for an `Action`.
pub enum Event {
    /// It was done. For `Inspect`: something other than a link is there.
    Done,
    /// It was not done, for a reason that no other event names.
    Failed,
    /// Nothing is at the path.
    NotFound,
    /// Something is at the path already.
    AlreadyExists,
    /// The file exists.
    Present,
    /// A link is at the path.
    Symlink,
    /// The link leads to this path.
    Link(PathId),
    /// The mode of the file.
    Mode(u32),
    /// The text of the file.
    Text(String),
}

/// An `Event` as mathematics has it.
pub enum Answer {
    Done,
    Failed,
    NotFound,
    AlreadyExists,
    Present,
    Symlink,
    Link(PathId),
    Mode(u32),
    Text(Seq<char>),
}

impl View for Event {
    type V = Answer;

    open spec fn view(&self) -> Answer {
        match *self {
            Event::Done => Answer::Done,
            Event::Failed => Answer::Failed,
            Event::NotFound => Answer::NotFound,
            Event::AlreadyExists => Answer::AlreadyExists,
            Event::Present => Answer::Present,
            Event::Symlink => Answer::Symlink,
            Event::Link(path) => Answer::Link(path),
            Event::Mode(mode) => Answer::Mode(mode),
            Event::Text(text) => Answer::Text(text@),
        }
    }
}

}
