//! The file that tells others the server's public key.

use vstd::prelude::*;

use crate::key_files::{Action, Answer, Event, PathId, PRIVATE_KEY_FILE_MODE};
use crate::key_path::{
    honest_answer, hops_away, leads_to, resolve_key_path, resolving, resolving_is_bounded,
    search_end, search_follows_links, Resolve, ResolveError, MAX_KEY_SYMLINKS,
};
use crate::text::{trim, trimmed};

verus! {

/// Why the public key's file was not brought in line.
#[derive(Clone, Copy, PartialEq, Eq, Structural, Debug)]
pub enum PublicKeyError {
    /// The path of the file was not resolved.
    Resolve(ResolveError),
    /// The file at this path could not be read.
    Read(PathId),
    /// The file at this path holds another key.
    Mismatch(PathId),
    /// No temporary file could be created.
    CreateTemporary,
    /// The mode of the temporary file could not be read.
    ReadTemporaryMode,
    /// The permissions of the temporary file could not be set.
    SetTemporaryMode,
    /// The temporary file could not be written.
    WriteTemporary,
    /// The temporary file could not be brought to the disk.
    SyncTemporary,
    /// The temporary file could not be given its place.
    Publish,
    /// A file was in the way of the new one, and then was gone.
    Disappeared,
}

/// Finding out whether the public key's file has to be written.
#[derive(Clone, Copy, PartialEq, Eq, Structural, Debug)]
pub enum PublicKeyCheck {
    Resolving(Resolve),
    /// Read the file at this path.
    Reading(PathId),
    /// The file is there and holds the key.
    Present,
    /// No file is at this path.
    Missing(PathId),
    Failed(PublicKeyError),
}

impl PublicKeyCheck {
    /// The check while its path is looked for, or after that.
    pub open spec fn from_search(search: Resolve) -> PublicKeyCheck {
        match search {
            Resolve::Resolved(path) => PublicKeyCheck::Reading(path),
            Resolve::Failed(error) => PublicKeyCheck::Failed(PublicKeyError::Resolve(error)),
            _ => PublicKeyCheck::Resolving(search),
        }
    }

    /// No more links were followed than may be, and a search that has ended is over.
    pub open spec fn wf(self) -> bool {
        match self {
            PublicKeyCheck::Resolving(search) => search.wf() && search.request() is Some,
            _ => true,
        }
    }

    /// What is asked for in this state.
    pub open spec fn request(self) -> Option<Action> {
        match self {
            PublicKeyCheck::Resolving(search) => search.request(),
            PublicKeyCheck::Reading(path) => Some(Action::ReadText(path)),
            _ => None,
        }
    }

    /// The state after an answer: a file that is there has to hold `public_key`, white space around
    /// it aside.
    pub open spec fn after(self, answer: Answer, public_key: Seq<char>) -> PublicKeyCheck {
        match (self, answer) {
            (PublicKeyCheck::Resolving(search), _) => PublicKeyCheck::from_search(
                search.after(answer),
            ),
            (PublicKeyCheck::Reading(path), Answer::Text(contents)) => if trimmed(contents)
                == public_key {
                PublicKeyCheck::Present
            } else {
                PublicKeyCheck::Failed(PublicKeyError::Mismatch(path))
            },
            (PublicKeyCheck::Reading(path), Answer::NotFound) => PublicKeyCheck::Missing(path),
            (PublicKeyCheck::Reading(path), _) => PublicKeyCheck::Failed(
                PublicKeyError::Read(path),
            ),
            (done, _) => done,
        }
    }

    /// How many requests there can still be.
    pub open spec fn rank(self) -> nat {
        match self {
            PublicKeyCheck::Resolving(search) => search.rank() + 1,
            PublicKeyCheck::Reading(path) => 1,
            _ => 0,
        }
    }

    fn search(search: Resolve) -> (r: PublicKeyCheck)
        ensures
            r == PublicKeyCheck::from_search(search),
    {
        match search {
            Resolve::Resolved(path) => PublicKeyCheck::Reading(path),
            Resolve::Failed(error) => PublicKeyCheck::Failed(PublicKeyError::Resolve(error)),
            _ => PublicKeyCheck::Resolving(search),
        }
    }

    /// What is asked for in this state.
    pub fn action(&self) -> (r: Option<Action>)
        ensures
            r == self.request(),
    {
        match self {
            PublicKeyCheck::Resolving(search) => search.action(),
            PublicKeyCheck::Reading(path) => Some(Action::ReadText(*path)),
            _ => None,
        }
    }

    /// Takes the answer to what was asked for.
    pub fn step(self, event: &Event, public_key: &String) -> (r: PublicKeyCheck)
        requires
            self.wf(),
        ensures
            r == self.after(event@, public_key@),
            r.wf(),
    {
        match self {
            PublicKeyCheck::Resolving(search) => PublicKeyCheck::search(search.step(event)),
            PublicKeyCheck::Reading(path) => match event {
                Event::Text(contents) => {
                    if trim(contents.as_str()) == *public_key {
                        PublicKeyCheck::Present
                    } else {
                        PublicKeyCheck::Failed(PublicKeyError::Mismatch(path))
                    }
                },
                Event::NotFound => PublicKeyCheck::Missing(path),
                _ => PublicKeyCheck::Failed(PublicKeyError::Read(path)),
            },
            done => done,
        }
    }
}

/// Starts to find out whether the public key's file, at `path`, has to be written, and where.
pub fn missing_public_key_path(path: PathId) -> (r: PublicKeyCheck)
    ensures
        r == checking(path),
        r.wf(),
{
    PublicKeyCheck::Resolving(resolve_key_path(path))
}

/// The check of the public key's file at `path`, before its first request.
pub open spec fn checking(path: PathId) -> PublicKeyCheck {
    PublicKeyCheck::Resolving(resolving(path))
}

/// Giving a finished temporary file its place.
#[derive(Clone, Copy, PartialEq, Eq, Structural, Debug)]
pub enum PublicKeyPublish {
    /// Move the temporary file to this path, unless something is there.
    Publish(PathId),
    /// Something was there: find out whether it is the same key.
    Recheck(PublicKeyCheck),
    /// Remove the temporary file, which got no place: it was not needed, or there is this error.
    Discard(Option<PublicKeyError>),
    Published,
    Failed(PublicKeyError),
}

impl PublicKeyPublish {
    /// The publication while what was in its way is looked at, or after that.
    pub open spec fn from_check(check: PublicKeyCheck) -> PublicKeyPublish {
        match check {
            PublicKeyCheck::Present => PublicKeyPublish::Discard(None),
            PublicKeyCheck::Missing(path) => PublicKeyPublish::Discard(
                Some(PublicKeyError::Disappeared),
            ),
            PublicKeyCheck::Failed(error) => PublicKeyPublish::Discard(Some(error)),
            _ => PublicKeyPublish::Recheck(check),
        }
    }

    /// A check that goes on is well formed, and one that has ended is over.
    pub open spec fn wf(self) -> bool {
        match self {
            PublicKeyPublish::Recheck(check) => check.wf() && check.request() is Some,
            _ => true,
        }
    }

    /// What is asked for in this state.
    pub open spec fn request(self) -> Option<Action> {
        match self {
            PublicKeyPublish::Publish(path) => Some(Action::Publish(path)),
            PublicKeyPublish::Recheck(check) => check.request(),
            PublicKeyPublish::Discard(_) => Some(Action::DiscardTemporary),
            _ => None,
        }
    }

    /// The state after an answer: what is in the way has to hold `public_key` itself. A temporary
    /// file that got no place is removed; that this may fail makes no difference.
    pub open spec fn after(self, answer: Answer, public_key: Seq<char>) -> PublicKeyPublish {
        match (self, answer) {
            (PublicKeyPublish::Publish(path), Answer::Done) => PublicKeyPublish::Published,
            (PublicKeyPublish::Publish(path), Answer::AlreadyExists) => PublicKeyPublish::Recheck(
                checking(path),
            ),
            (PublicKeyPublish::Publish(path), _) => PublicKeyPublish::Discard(
                Some(PublicKeyError::Publish),
            ),
            (PublicKeyPublish::Recheck(check), _) => PublicKeyPublish::from_check(
                check.after(answer, public_key),
            ),
            (PublicKeyPublish::Discard(None), _) => PublicKeyPublish::Published,
            (PublicKeyPublish::Discard(Some(error)), _) => PublicKeyPublish::Failed(error),
            (done, _) => done,
        }
    }

    /// How many requests there can still be.
    pub open spec fn rank(self) -> nat {
        match self {
            PublicKeyPublish::Publish(path) => checking(path).rank() + 2,
            PublicKeyPublish::Recheck(check) => check.rank() + 1,
            PublicKeyPublish::Discard(_) => 1,
            _ => 0,
        }
    }

    fn check(check: PublicKeyCheck) -> (r: PublicKeyPublish)
        ensures
            r == PublicKeyPublish::from_check(check),
    {
        match check {
            PublicKeyCheck::Present => PublicKeyPublish::Discard(None),
            PublicKeyCheck::Missing(path) => PublicKeyPublish::Discard(
                Some(PublicKeyError::Disappeared),
            ),
            PublicKeyCheck::Failed(error) => PublicKeyPublish::Discard(Some(error)),
            _ => PublicKeyPublish::Recheck(check),
        }
    }

    /// What is asked for in this state.
    pub fn action(&self) -> (r: Option<Action>)
        ensures
            r == self.request(),
    {
        match self {
            PublicKeyPublish::Publish(path) => Some(Action::Publish(*path)),
            PublicKeyPublish::Recheck(check) => check.action(),
            PublicKeyPublish::Discard(_) => Some(Action::DiscardTemporary),
            _ => None,
        }
    }

    /// Takes the answer to what was asked for.
    pub fn step(self, event: &Event, public_key: &String) -> (r: PublicKeyPublish)
        requires
            self.wf(),
        ensures
            r == self.after(event@, public_key@),
            r.wf(),
    {
        match self {
            PublicKeyPublish::Publish(path) => match event {
                Event::Done => PublicKeyPublish::Published,
                Event::AlreadyExists => PublicKeyPublish::Recheck(missing_public_key_path(path)),
                _ => PublicKeyPublish::Discard(Some(PublicKeyError::Publish)),
            },
            PublicKeyPublish::Recheck(check) => PublicKeyPublish::check(
                check.step(event, public_key),
            ),
            PublicKeyPublish::Discard(None) => PublicKeyPublish::Published,
            PublicKeyPublish::Discard(Some(error)) => PublicKeyPublish::Failed(error),
            done => done,
        }
    }
}

/// Starts to give a finished temporary file its place at `path`.
pub fn publish_public_key(path: PathId) -> (r: PublicKeyPublish)
    ensures
        r == PublicKeyPublish::Publish(path),
        r.wf(),
{
    PublicKeyPublish::Publish(path)
}

/// How far the public key's file is written.
#[derive(Clone, Copy, PartialEq, Eq, Structural, Debug)]
pub enum PublicKeyStage {
    Check(PublicKeyCheck),
    CreateTemporary(PathId),
    ReadMode(PathId),
    SetMode(PathId, u32),
    WriteText(PathId),
    Sync(PathId),
    Publish(PublicKeyPublish),
    /// Remove the temporary file, after this error with it.
    Discard(PublicKeyError),
    /// The file holds the key.
    Written,
    /// The file is missing and stays so, as it may.
    Skipped,
    Failed(PublicKeyError),
}

/// Bringing the public key's file in line with the key.
#[derive(Clone, Copy, PartialEq, Eq, Structural, Debug)]
pub struct PublicKeyWrite {
    /// Whether it is an error that no temporary file can be created.
    pub required: bool,
    /// Whether files have a mode.
    pub unix: bool,
    pub stage: PublicKeyStage,
}

impl PublicKeyStage {
    /// The write while the file is checked, or after that.
    pub open spec fn from_check(check: PublicKeyCheck) -> PublicKeyStage {
        match check {
            PublicKeyCheck::Present => PublicKeyStage::Written,
            PublicKeyCheck::Missing(path) => PublicKeyStage::CreateTemporary(path),
            PublicKeyCheck::Failed(error) => PublicKeyStage::Failed(error),
            _ => PublicKeyStage::Check(check),
        }
    }

    /// The write while the file is published, or after that.
    pub open spec fn from_publish(publish: PublicKeyPublish) -> PublicKeyStage {
        match publish {
            PublicKeyPublish::Published => PublicKeyStage::Written,
            PublicKeyPublish::Failed(error) => PublicKeyStage::Failed(error),
            _ => PublicKeyStage::Publish(publish),
        }
    }

    /// A part that goes on is well formed, and one that has ended is over.
    pub open spec fn wf(self) -> bool {
        match self {
            PublicKeyStage::Check(check) => check.wf() && check.request() is Some,
            PublicKeyStage::Publish(publish) => publish.wf() && publish.request() is Some,
            _ => true,
        }
    }

    /// What is asked for in this state.
    pub open spec fn request(self) -> Option<Action> {
        match self {
            PublicKeyStage::Check(check) => check.request(),
            PublicKeyStage::CreateTemporary(path) => Some(Action::CreateTemporary(path)),
            PublicKeyStage::ReadMode(path) => Some(Action::ReadTemporaryMode),
            PublicKeyStage::SetMode(path, mode) => Some(Action::SetTemporaryMode(mode)),
            PublicKeyStage::WriteText(path) => Some(Action::WriteTemporary),
            PublicKeyStage::Sync(path) => Some(Action::SyncTemporary),
            PublicKeyStage::Publish(publish) => publish.request(),
            PublicKeyStage::Discard(_) => Some(Action::DiscardTemporary),
            _ => None,
        }
    }

    /// How many requests there can still be.
    pub open spec fn rank(self) -> nat {
        match self {
            PublicKeyStage::Check(check) => check.rank() + 100,
            PublicKeyStage::CreateTemporary(path) => 90,
            PublicKeyStage::ReadMode(path) => 89,
            PublicKeyStage::SetMode(path, mode) => 88,
            PublicKeyStage::WriteText(path) => 87,
            PublicKeyStage::Sync(path) => 86,
            PublicKeyStage::Publish(publish) => publish.rank(),
            PublicKeyStage::Discard(_) => 1,
            _ => 0,
        }
    }

    fn check(check: PublicKeyCheck) -> (r: PublicKeyStage)
        ensures
            r == PublicKeyStage::from_check(check),
    {
        match check {
            PublicKeyCheck::Present => PublicKeyStage::Written,
            PublicKeyCheck::Missing(path) => PublicKeyStage::CreateTemporary(path),
            PublicKeyCheck::Failed(error) => PublicKeyStage::Failed(error),
            _ => PublicKeyStage::Check(check),
        }
    }

    fn publish(publish: PublicKeyPublish) -> (r: PublicKeyStage)
        ensures
            r == PublicKeyStage::from_publish(publish),
    {
        match publish {
            PublicKeyPublish::Published => PublicKeyStage::Written,
            PublicKeyPublish::Failed(error) => PublicKeyStage::Failed(error),
            _ => PublicKeyStage::Publish(publish),
        }
    }
}

/// Whether a mode lets the owner read and write.
pub open spec fn owner_reads_and_writes(mode: u32) -> bool {
    mode & PRIVATE_KEY_FILE_MODE == PRIVATE_KEY_FILE_MODE
}

impl PublicKeyWrite {
    /// The part that goes on is well formed.
    pub open spec fn wf(self) -> bool {
        self.stage.wf()
    }

    /// What is asked for in this state.
    pub open spec fn request(self) -> Option<Action> {
        self.stage.request()
    }

    /// The stage after an answer: a file that is there has to hold `public_key`; one that is
    /// missing appears with all of its text at once. Whatever is wrong with the temporary file, it
    /// is removed first.
    pub open spec fn stage_after(self, answer: Answer, public_key: Seq<char>) -> PublicKeyStage {
        match (self.stage, answer) {
            (PublicKeyStage::Check(check), _) => PublicKeyStage::from_check(
                check.after(answer, public_key),
            ),
            (PublicKeyStage::CreateTemporary(path), Answer::Done) => if self.unix {
                PublicKeyStage::ReadMode(path)
            } else {
                PublicKeyStage::WriteText(path)
            },
            (PublicKeyStage::CreateTemporary(path), _) => if self.required {
                PublicKeyStage::Failed(PublicKeyError::CreateTemporary)
            } else {
                PublicKeyStage::Skipped
            },
            (PublicKeyStage::ReadMode(path), Answer::Mode(mode)) => if owner_reads_and_writes(
                mode,
            ) {
                PublicKeyStage::WriteText(path)
            } else {
                PublicKeyStage::SetMode(path, mode | PRIVATE_KEY_FILE_MODE)
            },
            (PublicKeyStage::ReadMode(path), _) => PublicKeyStage::Discard(
                PublicKeyError::ReadTemporaryMode,
            ),
            (PublicKeyStage::SetMode(path, mode), Answer::Done) => PublicKeyStage::WriteText(path),
            (PublicKeyStage::SetMode(path, mode), _) => PublicKeyStage::Discard(
                PublicKeyError::SetTemporaryMode,
            ),
            (PublicKeyStage::WriteText(path), Answer::Done) => PublicKeyStage::Sync(path),
            (PublicKeyStage::WriteText(path), _) => PublicKeyStage::Discard(
                PublicKeyError::WriteTemporary,
            ),
            (PublicKeyStage::Sync(path), Answer::Done) => PublicKeyStage::Publish(
                PublicKeyPublish::Publish(path),
            ),
            (PublicKeyStage::Sync(path), _) => PublicKeyStage::Discard(
                PublicKeyError::SyncTemporary,
            ),
            (PublicKeyStage::Publish(publish), _) => PublicKeyStage::from_publish(
                publish.after(answer, public_key),
            ),
            (PublicKeyStage::Discard(error), _) => PublicKeyStage::Failed(error),
            (done, _) => done,
        }
    }

    /// The state after an answer.
    pub open spec fn after(self, answer: Answer, public_key: Seq<char>) -> PublicKeyWrite {
        PublicKeyWrite { stage: self.stage_after(answer, public_key), ..self }
    }

    /// What is asked for in this state.
    pub fn action(&self) -> (r: Option<Action>)
        ensures
            r == self.request(),
    {
        match &self.stage {
            PublicKeyStage::Check(check) => check.action(),
            PublicKeyStage::CreateTemporary(path) => Some(Action::CreateTemporary(*path)),
            PublicKeyStage::ReadMode(path) => Some(Action::ReadTemporaryMode),
            PublicKeyStage::SetMode(path, mode) => Some(Action::SetTemporaryMode(*mode)),
            PublicKeyStage::WriteText(path) => Some(Action::WriteTemporary),
            PublicKeyStage::Sync(path) => Some(Action::SyncTemporary),
            PublicKeyStage::Publish(publish) => publish.action(),
            PublicKeyStage::Discard(_) => Some(Action::DiscardTemporary),
            _ => None,
        }
    }

    /// Takes the answer to what was asked for.
    pub fn step(self, event: &Event, public_key: &String) -> (r: PublicKeyWrite)
        requires
            self.wf(),
        ensures
            r == self.after(event@, public_key@),
            r.wf(),
    {
        let stage: PublicKeyStage = match self.stage {
            PublicKeyStage::Check(check) => PublicKeyStage::check(check.step(event, public_key)),
            PublicKeyStage::CreateTemporary(path) => match event {
                Event::Done => if self.unix {
                    PublicKeyStage::ReadMode(path)
                } else {
                    PublicKeyStage::WriteText(path)
                },
                // Existing secret keys may be provisioned in a read-only directory.
                _ => if self.required {
                    PublicKeyStage::Failed(PublicKeyError::CreateTemporary)
                } else {
                    PublicKeyStage::Skipped
                },
            },
            PublicKeyStage::ReadMode(path) => match event {
                Event::Mode(mode) => if *mode & PRIVATE_KEY_FILE_MODE != PRIVATE_KEY_FILE_MODE {
                    PublicKeyStage::SetMode(path, *mode | PRIVATE_KEY_FILE_MODE)
                } else {
                    PublicKeyStage::WriteText(path)
                },
                _ => PublicKeyStage::Discard(PublicKeyError::ReadTemporaryMode),
            },
            PublicKeyStage::SetMode(path, mode) => match event {
                Event::Done => PublicKeyStage::WriteText(path),
                _ => PublicKeyStage::Discard(PublicKeyError::SetTemporaryMode),
            },
            PublicKeyStage::WriteText(path) => match event {
                Event::Done => PublicKeyStage::Sync(path),
                _ => PublicKeyStage::Discard(PublicKeyError::WriteTemporary),
            },
            PublicKeyStage::Sync(path) => match event {
                Event::Done => PublicKeyStage::Publish(publish_public_key(path)),
                _ => PublicKeyStage::Discard(PublicKeyError::SyncTemporary),
            },
            PublicKeyStage::Publish(publish) => PublicKeyStage::publish(
                publish.step(event, public_key),
            ),
            PublicKeyStage::Discard(error) => PublicKeyStage::Failed(error),
            done => done,
        };
        PublicKeyWrite { required: self.required, unix: self.unix, stage }
    }
}

/// Starts to bring the public key's file at `path` in line with the key.
pub fn write_public_key(path: PathId, required: bool, unix: bool) -> (r: PublicKeyWrite)
    ensures
        r == writing(path, required, unix),
        r.wf(),
{
    PublicKeyWrite {
        required,
        unix,
        stage: PublicKeyStage::Check(missing_public_key_path(path)),
    }
}

/// The write of the public key's file at `path`, before its first request.
pub open spec fn writing(path: PathId, required: bool, unix: bool) -> PublicKeyWrite {
    PublicKeyWrite { required, unix, stage: PublicKeyStage::Check(checking(path)) }
}

/// Whatever the answers, each of them brings the end of a check nearer.
pub proof fn checking_is_bounded(state: PublicKeyCheck, answer: Answer, public_key: Seq<char>)
    requires
        state.wf(),
        state.request() is Some,
    ensures
        state.after(answer, public_key).wf(),
        state.after(answer, public_key).rank() < state.rank(),
        state.rank() <= 82,
{
    match state {
        PublicKeyCheck::Resolving(search) => {
            resolving_is_bounded(search, answer);
        },
        _ => {},
    }
}

/// Whatever the answers, each of them brings the end of a publication nearer.
pub proof fn publishing_is_bounded(state: PublicKeyPublish, answer: Answer, public_key: Seq<char>)
    requires
        state.wf(),
        state.request() is Some,
    ensures
        state.after(answer, public_key).wf(),
        state.after(answer, public_key).rank() < state.rank(),
        state.rank() <= 84,
{
    match state {
        PublicKeyPublish::Recheck(check) => {
            checking_is_bounded(check, answer, public_key);
        },
        _ => {},
    }
}

/// Whatever the answers, each of them brings the end of a write nearer.
pub proof fn writing_is_bounded(state: PublicKeyWrite, answer: Answer, public_key: Seq<char>)
    requires
        state.wf(),
        state.request() is Some,
    ensures
        state.after(answer, public_key).wf(),
        state.after(answer, public_key).stage.rank() < state.stage.rank(),
        state.stage.rank() <= 182,
{
    match state.stage {
        PublicKeyStage::Check(check) => {
            checking_is_bounded(check, answer, public_key);
        },
        PublicKeyStage::Publish(publish) => {
            publishing_is_bounded(publish, answer, public_key);
        },
        _ => {},
    }
}

/// Where something goes wrong with a temporary file that was created, that is an error even where
/// the file may stay missing, and the temporary file is to be removed first.
pub proof fn broken_temporary_file_is_an_error(
    state: PublicKeyWrite,
    answer: Answer,
    discarded: Answer,
    public_key: Seq<char>,
)
    requires
        match state.stage {
            PublicKeyStage::ReadMode(_) => !(answer is Mode),
            PublicKeyStage::SetMode(_, _) | PublicKeyStage::WriteText(_) | PublicKeyStage::Sync(
                _,
            ) => !(answer is Done),
            PublicKeyStage::Publish(PublicKeyPublish::Publish(_)) => !(answer is Done)
                && !(answer is AlreadyExists),
            _ => false,
        },
    ensures
        ({
            let broken = state.after(answer, public_key);
            &&& broken.request() == Some(Action::DiscardTemporary)
            &&& broken.after(discarded, public_key).stage is Failed
        }),
{
}

/// The mode that a temporary file is given lets its owner read and write, and takes nothing away.
pub proof fn owner_mode_is_added(mode: u32)
    ensures
        owner_reads_and_writes(mode | PRIVATE_KEY_FILE_MODE),
        (mode | PRIVATE_KEY_FILE_MODE) & mode == mode,
        owner_reads_and_writes(mode) <==> mode | PRIVATE_KEY_FILE_MODE == mode,
{
    assert((mode | 0o600u32) & 0o600u32 == 0o600u32) by (bit_vector);
    assert((mode | 0o600u32) & mode == mode) by (bit_vector);
    assert((mode & 0o600u32 == 0o600u32) <==> (mode | 0o600u32 == mode)) by (bit_vector);
}

/// How a check ends where the links and the texts of the files are these and stay so.
pub open spec fn check_end(
    links: Map<PathId, PathId>,
    files: Map<PathId, Seq<char>>,
    state: PublicKeyCheck,
    public_key: Seq<char>,
) -> PublicKeyCheck
    decreases state.rank(),
    via check_end_decreases
{
    if state.wf() && state.request() is Some {
        let answer = match state {
            PublicKeyCheck::Resolving(search) => honest_answer(links, search),
            PublicKeyCheck::Reading(path) if files.contains_key(path) => Answer::Text(files[path]),
            _ => Answer::NotFound,
        };
        check_end(links, files, state.after(answer, public_key), public_key)
    } else {
        state
    }
}

#[via_fn]
proof fn check_end_decreases(
    links: Map<PathId, PathId>,
    files: Map<PathId, Seq<char>>,
    state: PublicKeyCheck,
    public_key: Seq<char>,
) {
    if state.wf() && state.request() is Some {
        let answer = match state {
            PublicKeyCheck::Resolving(search) => honest_answer(links, search),
            PublicKeyCheck::Reading(path) if files.contains_key(path) => Answer::Text(files[path]),
            _ => Answer::NotFound,
        };
        checking_is_bounded(state, answer, public_key);
    }
}

/// The check goes on from where its search ends.
proof fn lemma_check_after_search(
    links: Map<PathId, PathId>,
    files: Map<PathId, Seq<char>>,
    search: Resolve,
    public_key: Seq<char>,
)
    requires
        search.wf(),
    ensures
        check_end(links, files, PublicKeyCheck::from_search(search), public_key) == check_end(
            links,
            files,
            PublicKeyCheck::from_search(search_end(links, search)),
            public_key,
        ),
    decreases search.rank(),
{
    if search.request() is Some {
        let answer = honest_answer(links, search);
        resolving_is_bounded(search, answer);
        lemma_check_after_search(links, files, search.after(answer), public_key);
    }
}

/// A file that is there is accepted where it holds the key, white space around it aside, and
/// refused where it holds anything else; a missing one is to be written where its links lead.
pub proof fn check_tells_match_from_mismatch(
    links: Map<PathId, PathId>,
    files: Map<PathId, Seq<char>>,
    path: PathId,
    public_key: Seq<char>,
)
    ensures
        check_end(links, files, checking(path), public_key) == (match leads_to(
            links,
            path,
            MAX_KEY_SYMLINKS as nat,
        ) {
            Some(target) => if !files.contains_key(target) {
                PublicKeyCheck::Missing(target)
            } else if trimmed(files[target]) == public_key {
                PublicKeyCheck::Present
            } else {
                PublicKeyCheck::Failed(PublicKeyError::Mismatch(target))
            },
            None => PublicKeyCheck::Failed(
                PublicKeyError::Resolve(
                    ResolveError::TooManySymlinks(
                        hops_away(links, path, MAX_KEY_SYMLINKS as nat),
                    ),
                ),
            ),
        }),
{
    reveal_with_fuel(check_end, 3);
    search_follows_links(links, path);
    lemma_check_after_search(links, files, resolving(path), public_key);
}

/// Where something is at the path before the temporary file gets there, that counts as published
/// exactly where it leads to the same key. Either way the temporary file is to be removed.
pub proof fn publication_yields_to_the_same_key(
    links: Map<PathId, PathId>,
    files: Map<PathId, Seq<char>>,
    path: PathId,
    public_key: Seq<char>,
    target: PathId,
    discarded: Answer,
)
    requires
        leads_to(links, path, MAX_KEY_SYMLINKS as nat) == Some(target),
    ensures
        ({
            let found = PublicKeyPublish::Publish(path).after(Answer::AlreadyExists, public_key);
            let checked = PublicKeyPublish::from_check(
                check_end(links, files, found->Recheck_0, public_key),
            );
            let end = checked.after(discarded, public_key);
            &&& found is Recheck
            &&& checked.request() == Some(Action::DiscardTemporary)
            &&& end is Published <==> files.contains_key(target) && trimmed(files[target])
                == public_key
            &&& !files.contains_key(target) ==> end == PublicKeyPublish::Failed(
                PublicKeyError::Disappeared,
            )
            &&& files.contains_key(target) && trimmed(files[target]) != public_key ==> end
                == PublicKeyPublish::Failed(PublicKeyError::Mismatch(target))
        }),
{
    check_tells_match_from_mismatch(links, files, path, public_key);
}

}
