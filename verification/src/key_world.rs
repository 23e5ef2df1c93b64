//! What the key procedures do to the files around them.
//!
//! A `World` is what a run of the procedures can see and change. The laws here speak of runs: those
//! in which every request may fail, and those in which none does.

use vstd::prelude::*;

use crate::base64_text::{base64_round_trip, base64_text};
use crate::gen_sk::{getting_a_key_is_bounded, starting, KeyError, KeyStage, KeyState};
use crate::key_files::{
    Action, Answer, PathId, PRIVATE_KEY_FILE_MODE, PRIVATE_KEY_PATH, PUBLIC_KEY_PATH,
};
use crate::key_path::{leads_to, resolving, resolving_is_bounded, Resolve, MAX_KEY_SYMLINKS};
use crate::key_permissions::{is_private, permissions_in, private_permissions, Permissions};
use crate::private_key::{creating, PrivateKeyCreate, PrivateKeyError, PrivateKeyStage};
use crate::public_key::{
    checking, owner_reads_and_writes, publishing_is_bounded, writing, PublicKeyCheck, PublicKeyError, PublicKeyPublish,
    PublicKeyStage, PublicKeyWrite,
};
use crate::secret_key::{
    kept_key_reads_back, key_fault, public_half, public_key_text, public_key_text_is_trimmed, secret_key_of,
    SECRET_KEY_BYTES,
};
use crate::text::trimmed;

verus! {

/// A file: its text and its mode.
pub struct File {
    pub text: Seq<char>,
    pub mode: u32,
}

/// The files and links around the key procedures. One number stands for one path here. Whoever runs
/// the procedures may give one path several numbers, such as a new one whenever a link leads to it:
/// the procedures hand numbers on and never compare them, so that what they ask for is the same.
pub struct World {
    pub files: Map<PathId, File>,
    pub links: Map<PathId, PathId>,
    /// Where the key file is that was opened or created.
    pub key_file: Option<PathId>,
    /// The temporary file.
    pub temporary: Option<File>,
    /// Whether the removal of a temporary file has failed.
    pub left_behind: bool,
    /// The mode with which a key file is created.
    pub new_key_mode: u32,
    /// The mode with which a temporary file is created.
    pub new_temporary_mode: u32,
}

/// How a request goes.
pub enum Luck {
    Works,
    /// It fails; a write has brought nothing to the file before.
    Fails,
    /// It fails; a write has brought this many characters to the file before.
    Breaks(nat),
}

/// The first characters of `text`, at most `count` of them.
pub open spec fn beginning(text: Seq<char>, count: nat) -> Seq<char> {
    if count < text.len() {
        text.take(count as int)
    } else {
        text
    }
}

impl World {
    /// The file that `path` stands for, or would.
    pub open spec fn target(self, path: PathId) -> Option<PathId> {
        leads_to(self.links, path, MAX_KEY_SYMLINKS as nat)
    }

    /// Whether nothing is at `path`.
    pub open spec fn is_free(self, path: PathId) -> bool {
        !self.files.contains_key(path) && !self.links.contains_key(path)
    }

    /// The world with another text in the key file.
    pub open spec fn with_key_text(self, text: Seq<char>) -> World {
        let path = self.key_file->0;
        World { files: self.files.insert(path, File { text, ..self.files[path] }), ..self }
    }

    /// The world with another text in the temporary file.
    pub open spec fn with_temporary_text(self, text: Seq<char>) -> World {
        World { temporary: Some(File { text, ..self.temporary->0 }), ..self }
    }

    /// What comes of a request that works, where `key` is the key at hand.
    pub open spec fn doing(self, action: Action, key: Seq<u8>) -> (World, Answer) {
        match action {
            Action::Exists(path) => match self.target(path) {
                Some(target) if self.files.contains_key(target) => (self, Answer::Present),
                _ => (self, Answer::NotFound),
            },
            Action::Sleep(_) => (self, Answer::Done),
            Action::Open(path) => match self.target(path) {
                Some(target) => if self.files.contains_key(target) {
                    (World { key_file: Some(target), ..self }, Answer::Done)
                } else {
                    (self, Answer::NotFound)
                },
                None => (self, Answer::Failed),
            },
            Action::CreateNew(path, _) => if self.is_free(path) {
                let file = File { text: Seq::empty(), mode: self.new_key_mode };
                (
                    World { files: self.files.insert(path, file), key_file: Some(path), ..self },
                    Answer::Done,
                )
            } else {
                (self, Answer::AlreadyExists)
            },
            Action::ReadMode => (self, Answer::Mode(self.files[self.key_file->0].mode)),
            Action::SetMode(mode) => {
                let path = self.key_file->0;
                (
                    World {
                        files: self.files.insert(path, File { mode, ..self.files[path] }),
                        ..self
                    },
                    Answer::Done,
                )
            },
            Action::ReadKey => (self, Answer::Text(self.files[self.key_file->0].text)),
            Action::WriteKey => (self.with_key_text(base64_text(key)), Answer::Done),
            Action::Remove(path) => (
                World { files: self.files.remove(path), key_file: None, ..self },
                Answer::Done,
            ),
            Action::Inspect(path) => if self.links.contains_key(path) {
                (self, Answer::Symlink)
            } else if self.files.contains_key(path) {
                (self, Answer::Done)
            } else {
                (self, Answer::NotFound)
            },
            Action::FollowLink(path) => if self.links.contains_key(path) {
                (self, Answer::Link(self.links[path]))
            } else {
                (self, Answer::Failed)
            },
            Action::ReadText(path) => if self.files.contains_key(path) {
                (self, Answer::Text(self.files[path].text))
            } else {
                (self, Answer::NotFound)
            },
            Action::CreateTemporary(_) => (
                World {
                    temporary: Some(File { text: Seq::empty(), mode: self.new_temporary_mode }),
                    ..self
                },
                Answer::Done,
            ),
            Action::ReadTemporaryMode => (self, Answer::Mode(self.temporary->0.mode)),
            Action::SetTemporaryMode(mode) => (
                World { temporary: Some(File { mode, ..self.temporary->0 }), ..self },
                Answer::Done,
            ),
            Action::WriteTemporary => (
                self.with_temporary_text(public_key_text(key)),
                Answer::Done,
            ),
            Action::SyncTemporary => (self, Answer::Done),
            Action::Publish(path) => if self.is_free(path) {
                (
                    World {
                        files: self.files.insert(path, self.temporary->0),
                        temporary: None,
                        ..self
                    },
                    Answer::Done,
                )
            } else {
                (self, Answer::AlreadyExists)
            },
            Action::DiscardTemporary => (World { temporary: None, ..self }, Answer::Done),
        }
    }

    /// What comes of a request that fails, after `count` characters where it is a write.
    pub open spec fn breaking(self, action: Action, key: Seq<u8>, count: nat) -> World {
        match action {
            Action::WriteKey => self.with_key_text(beginning(base64_text(key), count)),
            Action::WriteTemporary => self.with_temporary_text(
                beginning(public_key_text(key), count),
            ),
            Action::DiscardTemporary => World { left_behind: true, ..self },
            _ => self,
        }
    }

    /// What comes of a request.
    pub open spec fn trying(self, action: Action, key: Seq<u8>, luck: Luck) -> (World, Answer) {
        match luck {
            Luck::Works => self.doing(action, key),
            Luck::Fails => (self.breaking(action, key, 0), Answer::Failed),
            Luck::Breaks(count) => (self.breaking(action, key, count), Answer::Failed),
        }
    }
}

/// One request and its answer; nothing, where the end is reached.
pub open spec fn one_step(world: World, state: KeyState, drawn: Seq<u8>, luck: Luck) -> (
    World,
    KeyState,
) {
    match state.request() {
        Some(action) => {
            let (next, answer) = world.trying(action, state.key->0, luck);
            (next, state.after(answer, drawn))
        },
        None => (world, state),
    }
}

/// As many requests as `lucks` are long, each going as it says.
pub open spec fn run(world: World, state: KeyState, drawn: Seq<u8>, lucks: Seq<Luck>) -> (
    World,
    KeyState,
)
    decreases lucks.len(),
{
    if lucks.len() == 0 {
        (world, state)
    } else {
        let (next, after) = one_step(world, state, drawn, lucks.first());
        run(next, after, drawn, lucks.drop_first())
    }
}

/// Whether a search that began at `start` is still on the way to where that leads.
spec fn on_the_way(links: Map<PathId, PathId>, start: PathId, search: Resolve) -> bool {
    let target = leads_to(links, start, MAX_KEY_SYMLINKS as nat);
    match search {
        Resolve::Inspect { path, hops } => hops <= MAX_KEY_SYMLINKS && leads_to(
            links,
            path,
            (MAX_KEY_SYMLINKS - hops) as nat,
        ) == target,
        Resolve::Follow { path, hops } => hops < MAX_KEY_SYMLINKS && links.contains_key(path)
            && leads_to(links, path, (MAX_KEY_SYMLINKS - hops) as nat) == target,
        Resolve::Resolved(path) => target == Some(path),
        Resolve::Failed(_) => true,
    }
}

/// A search stays on its way, however its request goes.
proof fn lemma_stays_on_the_way(
    world: World,
    start: PathId,
    search: Resolve,
    key: Seq<u8>,
    luck: Luck,
)
    requires
        on_the_way(world.links, start, search),
        search.request() is Some,
    ensures
        ({
            let (next, answer) = world.trying(search.request()->0, key, luck);
            &&& next == world
            &&& on_the_way(world.links, start, search.after(answer))
        }),
{
    match search {
        Resolve::Follow { path, hops } => {
            assert(leads_to(world.links, path, (MAX_KEY_SYMLINKS - hops) as nat) == leads_to(
                world.links,
                world.links[path],
                (MAX_KEY_SYMLINKS - (hops + 1)) as nat,
            ));
        },
        _ => {},
    }
}

/// What a check of the public key's file has found out is so.
spec fn check_is_right(world: World, check: PublicKeyCheck, public_key: Seq<char>) -> bool {
    let target = world.target(PUBLIC_KEY_PATH);
    match check {
        PublicKeyCheck::Resolving(search) => on_the_way(world.links, PUBLIC_KEY_PATH, search),
        PublicKeyCheck::Reading(path) => target == Some(path),
        PublicKeyCheck::Present => target is Some && world.files.contains_key(target->0)
            && trimmed(world.files[target->0].text) == public_key,
        PublicKeyCheck::Missing(path) => target == Some(path) && !world.files.contains_key(path),
        PublicKeyCheck::Failed(_) => true,
    }
}

/// A check stays right, however its request goes.
proof fn lemma_check_stays_right(
    world: World,
    check: PublicKeyCheck,
    public_key: Seq<char>,
    key: Seq<u8>,
    luck: Luck,
)
    requires
        check_is_right(world, check, public_key),
        check.request() is Some,
    ensures
        ({
            let (next, answer) = world.trying(check.request()->0, key, luck);
            &&& next == world
            &&& check_is_right(world, check.after(answer, public_key), public_key)
        }),
{
    match check {
        PublicKeyCheck::Resolving(search) => {
            lemma_stays_on_the_way(world, PUBLIC_KEY_PATH, search, key, luck);
        },
        _ => {},
    }
}

/// Whether the key file holds the key `key`.
pub open spec fn key_is_kept(world: World, key: Seq<u8>) -> bool {
    match world.target(PRIVATE_KEY_PATH) {
        Some(path) => world.files.contains_key(path) && secret_key_of(world.files[path].text)
            == Some(key),
        None => false,
    }
}

/// Whether there is no key file, but could be.
pub open spec fn key_is_missing(world: World) -> bool {
    match world.target(PRIVATE_KEY_PATH) {
        Some(path) => !world.files.contains_key(path),
        None => false,
    }
}

/// Whether the mode of a file that was there is as it was, or is now `PRIVATE_KEY_FILE_MODE` on a
/// key file that was not private.
pub open spec fn mode_is_kept(first: World, world: World, path: PathId) -> bool {
    let before = first.files[path].mode;
    let after = world.files[path].mode;
    ||| after == before
    ||| {
        &&& first.target(PRIVATE_KEY_PATH) == Some(path)
        &&& !is_private(permissions_in(before))
        &&& after == PRIVATE_KEY_FILE_MODE
    }
}

/// A file that a run adds is the public key's, with all of its text; or it is the key file, and
/// holds a part of the key at most while nobody but its owner can read it, nor could from its
/// creation on.
pub open spec fn new_file_is_good(world: World, state: KeyState, path: PathId) -> bool {
    let file = world.files[path];
    &&& state.key is Some
    &&& {
        ||| world.target(PUBLIC_KEY_PATH) == Some(path) && file.text == state.public_key()
        ||| {
            &&& world.target(PRIVATE_KEY_PATH) == Some(path)
            &&& file.text.is_prefix_of(base64_text(state.key->0))
            &&& state.unix && file.text.len() > 0 ==> permissions_in(file.mode)
                == PRIVATE_KEY_FILE_MODE && is_private(permissions_in(world.new_key_mode))
        }
    }
}

/// What holds at any time of the files, in a run that began in the world `first`.
spec fn files_are_right(first: World, world: World, state: KeyState) -> bool {
    &&& world.links == first.links
    &&& world.new_key_mode == first.new_key_mode
    &&& forall|path: PathId| #[trigger]
        first.files.contains_key(path) ==> world.files.contains_key(path)
            && world.files[path].text == first.files[path].text && mode_is_kept(first, world, path)
    &&& forall|path: PathId| #[trigger]
        world.files.contains_key(path) && !first.files.contains_key(path) ==> new_file_is_good(
            world,
            state,
            path,
        )
}

/// What holds at any time of the key.
spec fn key_is_right(first: World, state: KeyState, drawn: Seq<u8>) -> bool {
    &&& match state.stage {
        KeyStage::Exists | KeyStage::Sleep | KeyStage::Open | KeyStage::Settle(_)
            | KeyStage::Read => state.key is None,
        _ => true,
    }
    &&& state.key is Some ==> (key_is_missing(first) && state.key == Some(drawn)) || key_is_kept(
        first,
        state.key->0,
    )
}

/// The key file was created in this run, at `path`, and there is no other new file.
spec fn new_key_file_is_open(first: World, world: World, path: PathId) -> bool {
    &&& world.key_file == Some(path)
    &&& world.target(PRIVATE_KEY_PATH) == Some(path)
    &&& !first.files.contains_key(path)
    &&& world.files.dom() == first.files.dom().insert(path)
}

/// The public key's file is missing, and its place is `path`.
spec fn public_key_is_missing(world: World, path: PathId) -> bool {
    &&& world.target(PUBLIC_KEY_PATH) == Some(path)
    &&& !world.files.contains_key(path)
}

/// What holds while the existing key file is opened, settled and read.
spec fn opening_is_right(first: World, world: World, permissions: Option<Permissions>) -> bool {
    &&& world.key_file is Some
    &&& world.key_file == world.target(PRIVATE_KEY_PATH)
    &&& first.files.contains_key(world.key_file->0)
    &&& world.files.dom() == first.files.dom()
    &&& match permissions {
        Some(Permissions::Inspect { newly_created }) => !newly_created
            && world.files[world.key_file->0].mode == first.files[world.key_file->0].mode,
        Some(Permissions::Restrict) => !is_private(
            permissions_in(first.files[world.key_file->0].mode),
        ),
        _ => true,
    }
}

/// What holds while the key file is created.
spec fn creation_is_right(first: World, world: World, create: PrivateKeyCreate) -> bool {
    match create.stage {
        PrivateKeyStage::Resolving(search) => world.files.dom() == first.files.dom() && on_the_way(
            world.links,
            PRIVATE_KEY_PATH,
            search,
        ),
        PrivateKeyStage::Create(path) => world.files.dom() == first.files.dom() && world.target(
            PRIVATE_KEY_PATH,
        ) == Some(path),
        PrivateKeyStage::Secure(path, permissions) => {
            &&& new_key_file_is_open(first, world, path)
            &&& world.files[path].text.len() == 0
            &&& match permissions {
                Permissions::Inspect { newly_created } => world.files[path].mode
                    == world.new_key_mode,
                _ => is_private(permissions_in(world.new_key_mode)),
            }
        },
        PrivateKeyStage::WriteText(path) => {
            &&& new_key_file_is_open(first, world, path)
            &&& create.unix ==> permissions_in(world.files[path].mode) == PRIVATE_KEY_FILE_MODE
                && is_private(permissions_in(world.new_key_mode))
        },
        PrivateKeyStage::Remove(path, _) => new_key_file_is_open(first, world, path),
        _ => true,
    }
}

/// What holds while the public key's file is written.
spec fn write_is_right(world: World, state: KeyState, stage: PublicKeyStage) -> bool {
    match stage {
        PublicKeyStage::Check(check) => check_is_right(world, check, state.public_key()),
        PublicKeyStage::CreateTemporary(path) => public_key_is_missing(world, path),
        PublicKeyStage::ReadMode(path) | PublicKeyStage::SetMode(path, _)
            | PublicKeyStage::WriteText(path) => public_key_is_missing(world, path)
            && world.temporary is Some,
        PublicKeyStage::Sync(path) | PublicKeyStage::Publish(PublicKeyPublish::Publish(path)) =>
            public_key_is_missing(world, path) && world.temporary is Some
            && world.temporary->0.text == state.public_key(),
        // With nothing in the way, the first try is the last.
        PublicKeyStage::Publish(PublicKeyPublish::Recheck(_)) => false,
        PublicKeyStage::Publish(PublicKeyPublish::Discard(error)) => error is Some,
        _ => true,
    }
}

/// What holds at a stage.
spec fn stage_is_right(first: World, world: World, state: KeyState) -> bool {
    match state.stage {
        KeyStage::Exists | KeyStage::Sleep | KeyStage::Open => world.files == first.files,
        KeyStage::Settle(permissions) => opening_is_right(first, world, Some(permissions)),
        KeyStage::Read => opening_is_right(first, world, None),
        KeyStage::CheckPublic(check) => world.files == first.files && key_is_missing(first)
            && check_is_right(world, check, state.public_key()),
        KeyStage::CreatePrivate(create) => key_is_missing(first) && creation_is_right(
            first,
            world,
            create,
        ),
        KeyStage::WritePublic(write) => key_is_kept(world, state.key->0) && write_is_right(
            world,
            state,
            write.stage,
        ),
        KeyStage::Ready => key_is_kept(world, state.key->0) && public_key_fits(
            world,
            state.key->0,
        ),
        KeyStage::Failed(KeyError::Create(PrivateKeyError::Remove(path, _))) => true,
        KeyStage::Failed(KeyError::Create(_)) => world.files.dom() == first.files.dom(),
        KeyStage::Failed(KeyError::PublicKey(_)) => state.key is Some && (world.files == first.files
            || key_is_kept(world, state.key->0)),
        _ => true,
    }
}

/// Whether there may be a temporary file at a stage.
spec fn uses_temporary(stage: KeyStage) -> bool {
    match stage {
        KeyStage::WritePublic(write) => match write.stage {
            PublicKeyStage::ReadMode(_) | PublicKeyStage::SetMode(_, _)
                | PublicKeyStage::WriteText(_) | PublicKeyStage::Sync(_)
                | PublicKeyStage::Publish(_) | PublicKeyStage::Discard(_) => true,
            _ => false,
        },
        _ => false,
    }
}

/// What holds at any time of the temporary file.
spec fn temporary_is_right(first: World, world: World, state: KeyState) -> bool {
    first.temporary is None && world.temporary is Some ==> world.left_behind || uses_temporary(
        state.stage,
    )
}

/// What holds at any time of a run that began in the world `first`.
spec fn run_invariant(first: World, world: World, state: KeyState, drawn: Seq<u8>) -> bool {
    &&& state.wf()
    &&& drawn.len() == SECRET_KEY_BYTES
    &&& files_are_right(first, world, state)
    &&& key_is_right(first, state, drawn)
    &&& stage_is_right(first, world, state)
    &&& temporary_is_right(first, world, state)
}

/// The invariant holds after one more request, while there is no new file yet.
#[verifier::spinoff_prover]
#[verifier::rlimit(40)]
proof fn lemma_early_step_keeps_invariant(
    first: World,
    world: World,
    state: KeyState,
    drawn: Seq<u8>,
    luck: Luck,
)
    requires
        run_invariant(first, world, state, drawn),
        state.request() is Some,
        !(state.stage is CreatePrivate),
        !(state.stage is WritePublic),
    ensures
        ({
            let (next, after) = one_step(world, state, drawn, luck);
            run_invariant(first, next, after, drawn)
        }),
{
    let action = state.request()->0;
    let (next, answer) = world.trying(action, state.key->0, luck);
    getting_a_key_is_bounded(state, answer, drawn);
    match state.stage {
        KeyStage::Settle(permissions) => {
            assert(next.files.dom() =~= world.files.dom());
        },
        KeyStage::CheckPublic(check) => {
            lemma_check_stays_right(world, check, state.public_key(), state.key->0, luck);
        },
        _ => {},
    }
}

/// The invariant holds after one more request, while the key file is created.
#[verifier::spinoff_prover]
#[verifier::rlimit(40)]
proof fn lemma_creating_step_keeps_invariant(
    first: World,
    world: World,
    state: KeyState,
    drawn: Seq<u8>,
    luck: Luck,
)
    requires
        run_invariant(first, world, state, drawn),
        state.stage is CreatePrivate,
    ensures
        ({
            let (next, after) = one_step(world, state, drawn, luck);
            run_invariant(first, next, after, drawn)
        }),
{
    let action = state.request()->0;
    let (next, answer) = world.trying(action, state.key->0, luck);
    getting_a_key_is_bounded(state, answer, drawn);
    lemma_own_mode();
    kept_key_reads_back(state.key->0);
    let create = state.stage->CreatePrivate_0;
    match create.stage {
        PrivateKeyStage::Resolving(search) => {
            lemma_stays_on_the_way(world, PRIVATE_KEY_PATH, search, state.key->0, luck);
        },
        PrivateKeyStage::Create(path) => {
            assert(next.files.dom() =~= first.files.dom() || next.files.dom()
                =~= first.files.dom().insert(path));
        },
        PrivateKeyStage::Secure(path, permissions) => {
            assert(next.files.dom() =~= world.files.dom());
        },
        PrivateKeyStage::WriteText(path) => {
            assert(next.files.dom() =~= world.files.dom());
        },
        PrivateKeyStage::Remove(path, error) => {
            if luck is Works {
                assert(next.files.dom() =~= first.files.dom());
            }
        },
        _ => {},
    }
}

/// The invariant holds after one more request, while the public key's file is written.
#[verifier::spinoff_prover]
#[verifier::rlimit(40)]
proof fn lemma_writing_step_keeps_invariant(
    first: World,
    world: World,
    state: KeyState,
    drawn: Seq<u8>,
    luck: Luck,
)
    requires
        run_invariant(first, world, state, drawn),
        state.stage is WritePublic,
    ensures
        ({
            let (next, after) = one_step(world, state, drawn, luck);
            run_invariant(first, next, after, drawn)
        }),
{
    let action = state.request()->0;
    let (next, answer) = world.trying(action, state.key->0, luck);
    getting_a_key_is_bounded(state, answer, drawn);
    public_key_text_is_trimmed(state.key->0);
    let write = state.stage->WritePublic_0;
    match write.stage {
        PublicKeyStage::Check(check) => {
            lemma_check_stays_right(world, check, state.public_key(), state.key->0, luck);
        },
        PublicKeyStage::Publish(PublicKeyPublish::Publish(path)) => {
            lemma_target_is_no_link(world.links, PUBLIC_KEY_PATH, MAX_KEY_SYMLINKS as nat);
        },
        _ => {},
    }
}

/// The invariant holds after one more request, however it goes.
proof fn lemma_step_keeps_invariant(
    first: World,
    world: World,
    state: KeyState,
    drawn: Seq<u8>,
    luck: Luck,
)
    requires
        run_invariant(first, world, state, drawn),
    ensures
        ({
            let (next, after) = one_step(world, state, drawn, luck);
            run_invariant(first, next, after, drawn)
        }),
{
    if state.request() is Some {
        match state.stage {
            KeyStage::CreatePrivate(_) => {
                lemma_creating_step_keeps_invariant(first, world, state, drawn, luck);
            },
            KeyStage::WritePublic(_) => {
                lemma_writing_step_keeps_invariant(first, world, state, drawn, luck);
            },
            _ => {
                lemma_early_step_keeps_invariant(first, world, state, drawn, luck);
            },
        }
    }
}

/// The invariant holds at any time of a run.
proof fn lemma_run_keeps_invariant(
    first: World,
    world: World,
    state: KeyState,
    drawn: Seq<u8>,
    lucks: Seq<Luck>,
)
    requires
        run_invariant(first, world, state, drawn),
    ensures
        ({
            let (last, end) = run(world, state, drawn, lucks);
            run_invariant(first, last, end, drawn)
        }),
    decreases lucks.len(),
{
    if lucks.len() > 0 {
        let (next, after) = one_step(world, state, drawn, lucks.first());
        lemma_step_keeps_invariant(first, world, state, drawn, lucks.first());
        lemma_run_keeps_invariant(first, next, after, drawn, lucks.drop_first());
    }
}

/// A file that exists is never overwritten, nor removed: not the key file, not the public key's
/// file, and no other; whatever fails, and however early the run is cut off. Its mode stays too,
/// but for a key file that is not private.
pub proof fn existing_files_are_kept(
    world: World,
    wait: u64,
    unix: bool,
    drawn: Seq<u8>,
    lucks: Seq<Luck>,
    path: PathId,
)
    requires
        drawn.len() == SECRET_KEY_BYTES,
        world.files.contains_key(path),
    ensures
        ({
            let (last, end) = run(world, starting(wait, unix), drawn, lucks);
            &&& last.files.contains_key(path)
            &&& last.files[path].text == world.files[path].text
            &&& mode_is_kept(world, last, path)
            &&& last.links == world.links
        }),
{
    lemma_run_keeps_invariant(world, world, starting(wait, unix), drawn, lucks);
}

/// A file that a run adds is the public key's, with all of its text and nothing else; or it is the
/// key file. Into that no character of the key goes before its permissions are its owner's alone,
/// nor where they were not from its creation on. This holds whatever fails, and however early the
/// run is cut off.
pub proof fn new_files_are_whole_or_private(
    world: World,
    wait: u64,
    unix: bool,
    drawn: Seq<u8>,
    lucks: Seq<Luck>,
    path: PathId,
)
    requires
        drawn.len() == SECRET_KEY_BYTES,
        !world.files.contains_key(path),
        run(world, starting(wait, unix), drawn, lucks).0.files.contains_key(path),
    ensures
        ({
            let (last, end) = run(world, starting(wait, unix), drawn, lucks);
            &&& new_file_is_good(last, end, path)
            &&& last.links == world.links
            &&& last.new_key_mode == world.new_key_mode
        }),
{
    lemma_run_keeps_invariant(world, world, starting(wait, unix), drawn, lucks);
}

/// The public key's file, where it is missing and is no other name of the key file, appears with all
/// of its text or not at all; whatever fails, and however early the run is cut off.
pub proof fn public_key_appears_whole(
    world: World,
    wait: u64,
    unix: bool,
    drawn: Seq<u8>,
    lucks: Seq<Luck>,
    path: PathId,
)
    requires
        drawn.len() == SECRET_KEY_BYTES,
        world.target(PUBLIC_KEY_PATH) == Some(path),
        world.target(PRIVATE_KEY_PATH) != Some(path),
        !world.files.contains_key(path),
    ensures
        ({
            let (last, end) = run(world, starting(wait, unix), drawn, lucks);
            last.files.contains_key(path) ==> end.key is Some && last.files[path].text
                == end.public_key()
        }),
{
    lemma_run_keeps_invariant(world, world, starting(wait, unix), drawn, lucks);
}

/// Where a run ends with a key, whatever failed on the way, the key file holds that key, and the
/// public key's file holds its public key or is missing.
pub proof fn outcome_is_kept(
    world: World,
    wait: u64,
    unix: bool,
    drawn: Seq<u8>,
    lucks: Seq<Luck>,
)
    requires
        drawn.len() == SECRET_KEY_BYTES,
        run(world, starting(wait, unix), drawn, lucks).1.stage is Ready,
    ensures
        ({
            let (last, end) = run(world, starting(wait, unix), drawn, lucks);
            &&& end.key is Some
            &&& key_is_kept(last, end.key->0)
            &&& public_key_fits(last, end.key->0)
        }),
{
    lemma_run_keeps_invariant(world, world, starting(wait, unix), drawn, lucks);
}

/// At the end of a run there is no temporary file, however the run ended, unless the removal of one
/// failed.
pub proof fn temporary_file_is_removed(
    world: World,
    wait: u64,
    unix: bool,
    drawn: Seq<u8>,
    lucks: Seq<Luck>,
)
    requires
        drawn.len() == SECRET_KEY_BYTES,
        world.temporary is None,
        run(world, starting(wait, unix), drawn, lucks).1.request() is None,
    ensures
        ({
            let last = run(world, starting(wait, unix), drawn, lucks).0;
            last.temporary is None || last.left_behind
        }),
{
    lemma_run_keeps_invariant(world, world, starting(wait, unix), drawn, lucks);
}

/// Where the key file could not be created or filled, no new file is left behind, unless its
/// removal failed too.
pub proof fn failed_creation_leaves_no_file(
    world: World,
    wait: u64,
    unix: bool,
    drawn: Seq<u8>,
    lucks: Seq<Luck>,
    error: PrivateKeyError,
)
    requires
        drawn.len() == SECRET_KEY_BYTES,
        run(world, starting(wait, unix), drawn, lucks).1.stage == KeyStage::Failed(
            KeyError::Create(error),
        ),
        !(error is Remove),
    ensures
        run(world, starting(wait, unix), drawn, lucks).0.files.dom() == world.files.dom(),
{
    lemma_run_keeps_invariant(world, world, starting(wait, unix), drawn, lucks);
}

/// Every run comes to its end.
pub proof fn every_run_ends(
    world: World,
    wait: u64,
    unix: bool,
    drawn: Seq<u8>,
    lucks: Seq<Luck>,
)
    requires
        drawn.len() == SECRET_KEY_BYTES,
        lucks.len() >= starting(wait, unix).stage.rank(),
    ensures
        run(world, starting(wait, unix), drawn, lucks).1.request() is None,
{
    lemma_run_ends(world, starting(wait, unix), drawn, lucks);
}

/// A run ends after as many requests as its state has left.
proof fn lemma_run_ends(world: World, state: KeyState, drawn: Seq<u8>, lucks: Seq<Luck>)
    requires
        state.wf(),
        drawn.len() == SECRET_KEY_BYTES,
        lucks.len() >= state.stage.rank(),
    ensures
        run(world, state, drawn, lucks).1.request() is None,
    decreases lucks.len(),
{
    if state.request() is Some {
        let action = state.request()->0;
        let answer = world.trying(action, state.key->0, lucks.first()).1;
        getting_a_key_is_bounded(state, answer, drawn);
        let (next, after) = one_step(world, state, drawn, lucks.first());
        lemma_run_ends(next, after, drawn, lucks.drop_first());
    } else if lucks.len() > 0 {
        lemma_run_ends_at_end(world, state, drawn, lucks);
    }
}

/// A run from its end changes nothing.
proof fn lemma_run_ends_at_end(world: World, state: KeyState, drawn: Seq<u8>, lucks: Seq<Luck>)
    requires
        state.request() is None,
    ensures
        run(world, state, drawn, lucks) == (world, state),
    decreases lucks.len(),
{
    if lucks.len() > 0 {
        lemma_run_ends_at_end(world, state, drawn, lucks.drop_first());
    }
}

/// A number of requests that all work.
pub open spec fn working(count: nat) -> Seq<Luck> {
    Seq::new(count, |i: int| Luck::Works)
}

/// Whether a run in which every request works comes by `next` and `after`.
spec fn reaches(
    world: World,
    state: KeyState,
    drawn: Seq<u8>,
    next: World,
    after: KeyState,
) -> bool {
    exists|count: nat| #[trigger] run(world, state, drawn, working(count)) == (next, after)
}

/// A run goes on from where its first part led.
proof fn lemma_run_in_parts(
    world: World,
    state: KeyState,
    drawn: Seq<u8>,
    count: nat,
    more: nat,
)
    ensures
        ({
            let (next, after) = run(world, state, drawn, working(count));
            run(world, state, drawn, working(count + more)) == run(
                next,
                after,
                drawn,
                working(more),
            )
        }),
    decreases count,
{
    if count > 0 {
        let (next, after) = one_step(world, state, drawn, Luck::Works);
        assert(working(count + more).drop_first() =~= working((count - 1 + more) as nat));
        assert(working(count).drop_first() =~= working((count - 1) as nat));
        lemma_run_in_parts(next, after, drawn, (count - 1) as nat, more);
    } else {
        assert(working(count + more) =~= working(more));
    }
}

proof fn lemma_reaches_on(
    world: World,
    state: KeyState,
    drawn: Seq<u8>,
    next: World,
    after: KeyState,
    last: World,
    end: KeyState,
)
    requires
        reaches(world, state, drawn, next, after),
        reaches(next, after, drawn, last, end),
    ensures
        reaches(world, state, drawn, last, end),
{
    let count = choose|count: nat| #[trigger]
        run(world, state, drawn, working(count)) == (next, after);
    let more = choose|more: nat| #[trigger] run(next, after, drawn, working(more)) == (last, end);
    lemma_run_in_parts(world, state, drawn, count, more);
    assert(run(world, state, drawn, working(count + more)) == (last, end));
}

proof fn lemma_reaches_itself(world: World, state: KeyState, drawn: Seq<u8>)
    ensures
        reaches(world, state, drawn, world, state),
{
    assert(run(world, state, drawn, working(0)) == (world, state));
}

/// One more request.
proof fn lemma_reaches_next(
    world: World,
    state: KeyState,
    drawn: Seq<u8>,
    next: World,
    after: KeyState,
)
    requires
        reaches(world, state, drawn, next, after),
    ensures
        ({
            let (last, end) = one_step(next, after, drawn, Luck::Works);
            reaches(world, state, drawn, last, end)
        }),
{
    let (last, end) = one_step(next, after, drawn, Luck::Works);
    assert(working(1).drop_first() =~= working(0));
    assert(run(next, after, drawn, working(1)) == run(last, end, drawn, working(0)));
    lemma_reaches_on(world, state, drawn, next, after, last, end);
}

/// A run that is long enough ends where a run that reached an end did.
proof fn lemma_run_to_the_end(
    world: World,
    state: KeyState,
    drawn: Seq<u8>,
    last: World,
    end: KeyState,
    count: nat,
)
    requires
        state.wf(),
        drawn.len() == SECRET_KEY_BYTES,
        reaches(world, state, drawn, last, end),
        end.request() is None,
        count >= state.stage.rank(),
    ensures
        run(world, state, drawn, working(count)) == (last, end),
{
    let n = choose|n: nat| #[trigger] run(world, state, drawn, working(n)) == (last, end);
    let (other_last, other_end) = run(world, state, drawn, working(count));
    lemma_run_ends(world, state, drawn, working(count));
    if count >= n {
        lemma_run_in_parts(world, state, drawn, n, (count - n) as nat);
        lemma_run_ends_at_end(last, end, drawn, working((count - n) as nat));
    } else {
        lemma_run_in_parts(world, state, drawn, count, (n - count) as nat);
        lemma_run_ends_at_end(other_last, other_end, drawn, working((n - count) as nat));
    }
}

/// The state `state` while a search goes on in it.
spec fn searching(state: KeyState, wrap: spec_fn(Resolve) -> KeyStage, search: Resolve) -> KeyState {
    KeyState { stage: wrap(search), ..state }
}

/// Whether `wrap` puts a search into the stages of `state`.
spec fn wraps(state: KeyState, wrap: spec_fn(Resolve) -> KeyStage) -> bool {
    forall|search: Resolve, answer: Answer, drawn: Seq<u8>|
        search.wf() && search.request() is Some ==> {
            &&& searching(state, wrap, search).request() == search.request()
            &&& #[trigger] searching(state, wrap, search).after(answer, drawn) == searching(
                state,
                wrap,
                search.after(answer),
            )
        }
}

/// A search that is part of a run finds what the path stands for.
proof fn lemma_search_reaches(
    world: World,
    state: KeyState,
    drawn: Seq<u8>,
    wrap: spec_fn(Resolve) -> KeyStage,
    path: PathId,
    hops: usize,
)
    requires
        hops <= MAX_KEY_SYMLINKS,
        wraps(state, wrap),
        leads_to(world.links, path, (MAX_KEY_SYMLINKS - hops) as nat) is Some,
    ensures
        reaches(
            world,
            searching(state, wrap, Resolve::Inspect { path, hops }),
            drawn,
            world,
            searching(
                state,
                wrap,
                Resolve::Resolved(
                    leads_to(world.links, path, (MAX_KEY_SYMLINKS - hops) as nat)->0,
                ),
            ),
        ),
    decreases MAX_KEY_SYMLINKS - hops,
{
    let inspect = Resolve::Inspect { path, hops };
    let start = searching(state, wrap, inspect);
    lemma_reaches_itself(world, start, drawn);
    let answer = world.doing(Action::Inspect(path), start.key->0).1;
    assert(start.after(answer, drawn) == searching(state, wrap, inspect.after(answer)));
    lemma_reaches_next(world, start, drawn, world, start);
    if world.links.contains_key(path) {
        let follow = Resolve::Follow { path, hops };
        let middle = searching(state, wrap, follow);
        let target = world.links[path];
        assert(middle.after(Answer::Link(target), drawn) == searching(
            state,
            wrap,
            follow.after(Answer::Link(target)),
        ));
        lemma_reaches_next(world, start, drawn, world, middle);
        let after = searching(state, wrap, Resolve::Inspect { path: target, hops: (hops + 1) as usize });
        assert(reaches(world, start, drawn, world, after));
        lemma_search_reaches(world, state, drawn, wrap, target, (hops + 1) as usize);
        lemma_reaches_on(
            world,
            start,
            drawn,
            world,
            after,
            world,
            searching(
                state,
                wrap,
                Resolve::Resolved(
                    leads_to(world.links, path, (MAX_KEY_SYMLINKS - hops) as nat)->0,
                ),
            ),
        );
    }
}

/// Where a path leads there is no link.
proof fn lemma_target_is_no_link(links: Map<PathId, PathId>, path: PathId, hops: nat)
    requires
        leads_to(links, path, hops) is Some,
    ensures
        !links.contains_key(leads_to(links, path, hops)->0),
    decreases hops,
{
    if links.contains_key(path) {
        lemma_target_is_no_link(links, links[path], (hops - 1) as nat);
    }
}

/// The state `state` at another stage.
spec fn at(state: KeyState, stage: KeyStage) -> KeyState {
    KeyState { stage, ..state }
}

/// The world after a missing public key's file was written.
spec fn with_public_key(world: World, path: PathId, key: Seq<u8>, unix: bool) -> World {
    let mode = if unix && !owner_reads_and_writes(world.new_temporary_mode) {
        world.new_temporary_mode | PRIVATE_KEY_FILE_MODE
    } else {
        world.new_temporary_mode
    };
    World {
        files: world.files.insert(path, File { text: public_key_text(key), mode }),
        temporary: None,
        ..world
    }
}

/// The public key's file is written where it is missing, left alone where it holds the key, and
/// refused where it holds something else.
#[verifier::spinoff_prover]
proof fn lemma_write_reaches(world: World, state: KeyState, drawn: Seq<u8>, required: bool)
    requires
        state.wf(),
        state.key is Some,
        world.target(PUBLIC_KEY_PATH) is Some,
    ensures
        ({
            let start = at(
                state,
                KeyStage::WritePublic(writing(PUBLIC_KEY_PATH, required, state.unix)),
            );
            let path = world.target(PUBLIC_KEY_PATH)->0;
            if !world.files.contains_key(path) {
                reaches(
                    world,
                    start,
                    drawn,
                    with_public_key(world, path, state.key->0, state.unix),
                    at(state, KeyStage::Ready),
                )
            } else if trimmed(world.files[path].text) == state.public_key() {
                reaches(world, start, drawn, world, at(state, KeyStage::Ready))
            } else {
                reaches(
                    world,
                    start,
                    drawn,
                    world,
                    at(
                        state,
                        KeyStage::Failed(KeyError::PublicKey(PublicKeyError::Mismatch(path))),
                    ),
                )
            }
        }),
{
    let unix = state.unix;
    let start = at(state, KeyStage::WritePublic(writing(PUBLIC_KEY_PATH, required, unix)));
    let path = world.target(PUBLIC_KEY_PATH)->0;
    lemma_target_is_no_link(world.links, PUBLIC_KEY_PATH, MAX_KEY_SYMLINKS as nat);
    let stage_at = |stage: PublicKeyStage|
        KeyStage::WritePublic(PublicKeyWrite { required, unix, stage });
    let wrap = |search: Resolve|
        KeyStage::from_write(
            PublicKeyWrite {
                required,
                unix,
                stage: PublicKeyStage::from_check(PublicKeyCheck::from_search(search)),
            },
        );
    assert(wraps(state, wrap));
    assert(start == searching(state, wrap, resolving(PUBLIC_KEY_PATH)));
    lemma_search_reaches(world, state, drawn, wrap, PUBLIC_KEY_PATH, 0);
    let reading = at(state, stage_at(PublicKeyStage::Check(PublicKeyCheck::Reading(path))));
    assert(reading == searching(state, wrap, Resolve::Resolved(path)));
    lemma_reaches_next(world, start, drawn, world, reading);
    if !world.files.contains_key(path) {
        let create = at(state, stage_at(PublicKeyStage::CreateTemporary(path)));
        assert(reaches(world, start, drawn, world, create));
        lemma_reaches_next(world, start, drawn, world, create);
        let empty = File { text: Seq::empty(), mode: world.new_temporary_mode };
        let created = World { temporary: Some(empty), ..world };
        let ready_to_write = if unix {
            let read_mode = at(state, stage_at(PublicKeyStage::ReadMode(path)));
            assert(reaches(world, start, drawn, created, read_mode));
            lemma_reaches_next(world, start, drawn, created, read_mode);
            if owner_reads_and_writes(world.new_temporary_mode) {
                created
            } else {
                let mode = world.new_temporary_mode | PRIVATE_KEY_FILE_MODE;
                let set_mode = at(state, stage_at(PublicKeyStage::SetMode(path, mode)));
                assert(reaches(world, start, drawn, created, set_mode));
                lemma_reaches_next(world, start, drawn, created, set_mode);
                World { temporary: Some(File { mode, ..empty }), ..world }
            }
        } else {
            created
        };
        let write = at(state, stage_at(PublicKeyStage::WriteText(path)));
        assert(reaches(world, start, drawn, ready_to_write, write));
        lemma_reaches_next(world, start, drawn, ready_to_write, write);
        let written = ready_to_write.with_temporary_text(state.public_key());
        let sync = at(state, stage_at(PublicKeyStage::Sync(path)));
        assert(reaches(world, start, drawn, written, sync));
        lemma_reaches_next(world, start, drawn, written, sync);
        let publish = at(
            state,
            stage_at(PublicKeyStage::Publish(PublicKeyPublish::Publish(path))),
        );
        assert(reaches(world, start, drawn, written, publish));
        lemma_reaches_next(world, start, drawn, written, publish);
        assert(one_step(written, publish, drawn, Luck::Works) == (
            with_public_key(world, path, state.key->0, unix),
            at(state, KeyStage::Ready),
        ));
    }
}

/// The world with another mode on the file at `path`.
spec fn with_mode(world: World, path: PathId, mode: u32) -> World {
    World { files: world.files.insert(path, File { mode, ..world.files[path] }), ..world }
}

/// The world after an existing key file was opened and its permissions were settled.
spec fn with_settled_key(world: World, path: PathId, unix: bool) -> World {
    let opened = World { key_file: Some(path), ..world };
    if unix && !is_private(permissions_in(world.files[path].mode)) {
        with_mode(opened, path, PRIVATE_KEY_FILE_MODE)
    } else {
        opened
    }
}

/// Exactly the owner's reading and writing is private, and is all that its own mode holds.
proof fn lemma_own_mode()
    ensures
        permissions_in(PRIVATE_KEY_FILE_MODE) == PRIVATE_KEY_FILE_MODE,
        is_private(PRIVATE_KEY_FILE_MODE),
{
    assert(0o600u32 & 0o7777u32 == 0o600u32) by (bit_vector);
    private_permissions(PRIVATE_KEY_FILE_MODE);
}

/// A run comes to open the key file, after a wait where there is to be one.
proof fn lemma_open_is_reached(world: World, wait: u64, unix: bool, drawn: Seq<u8>)
    ensures
        reaches(
            world,
            starting(wait, unix),
            drawn,
            world,
            at(starting(wait, unix), KeyStage::Open),
        ),
{
    let start = starting(wait, unix);
    lemma_reaches_itself(world, start, drawn);
    if wait > 0 {
        lemma_reaches_next(world, start, drawn, world, start);
        let sleep = at(start, KeyStage::Sleep);
        if one_step(world, start, drawn, Luck::Works).1 == sleep {
            lemma_reaches_next(world, start, drawn, world, sleep);
        }
    }
}

/// A run comes to read an existing key file.
#[verifier::spinoff_prover]
proof fn lemma_read_is_reached(world: World, wait: u64, unix: bool, drawn: Seq<u8>)
    requires
        world.target(PRIVATE_KEY_PATH) is Some,
        world.files.contains_key(world.target(PRIVATE_KEY_PATH)->0),
    ensures
        reaches(
            world,
            starting(wait, unix),
            drawn,
            with_settled_key(world, world.target(PRIVATE_KEY_PATH)->0, unix),
            at(starting(wait, unix), KeyStage::Read),
        ),
{
    let start = starting(wait, unix);
    let path = world.target(PRIVATE_KEY_PATH)->0;
    let opened = World { key_file: Some(path), ..world };
    lemma_own_mode();
    lemma_open_is_reached(world, wait, unix, drawn);
    lemma_reaches_next(world, start, drawn, world, at(start, KeyStage::Open));
    if unix {
        let inspect = at(start, KeyStage::Settle(Permissions::Inspect { newly_created: false }));
        assert(reaches(world, start, drawn, opened, inspect));
        lemma_reaches_next(world, start, drawn, opened, inspect);
        if !is_private(permissions_in(world.files[path].mode)) {
            let restrict = at(start, KeyStage::Settle(Permissions::Restrict));
            assert(reaches(world, start, drawn, opened, restrict));
            lemma_reaches_next(world, start, drawn, opened, restrict);
            let settled = with_mode(opened, path, PRIVATE_KEY_FILE_MODE);
            let confirm = at(start, KeyStage::Settle(Permissions::Confirm));
            assert(reaches(world, start, drawn, settled, confirm));
            lemma_reaches_next(world, start, drawn, settled, confirm);
        }
    }
}

/// Whether the public key's file is missing or holds the public key of `key`.
pub open spec fn public_key_fits(world: World, key: Seq<u8>) -> bool {
    match world.target(PUBLIC_KEY_PATH) {
        Some(path) => world.files.contains_key(path) ==> trimmed(world.files[path].text)
            == public_key_text(key),
        None => false,
    }
}

/// Whether the public key's file holds the public key of `key`: with nothing around it where the
/// file was not there in the world `before`, and as it was where it was there.
pub open spec fn public_key_is_told(before: World, world: World, key: Seq<u8>) -> bool {
    match before.target(PUBLIC_KEY_PATH) {
        Some(path) => {
            &&& world.files.contains_key(path)
            &&& if before.files.contains_key(path) {
                world.files[path].text == before.files[path].text && trimmed(
                    world.files[path].text,
                ) == public_key_text(key)
            } else {
                world.files[path].text == public_key_text(key)
            }
        },
        None => false,
    }
}

/// A key file that holds a key is read: the outcome is that key, and its public key's file is
/// there. The key file keeps its mode where that is private, and else is given
/// `PRIVATE_KEY_FILE_MODE`.
#[verifier::spinoff_prover]
pub proof fn existing_key_is_read(
    world: World,
    wait: u64,
    unix: bool,
    drawn: Seq<u8>,
    count: nat,
    key: Seq<u8>,
)
    requires
        drawn.len() == SECRET_KEY_BYTES,
        count >= starting(wait, unix).stage.rank(),
        world.target(PRIVATE_KEY_PATH) is Some,
        world.files.contains_key(world.target(PRIVATE_KEY_PATH)->0),
        secret_key_of(world.files[world.target(PRIVATE_KEY_PATH)->0].text) == Some(key),
        public_key_fits(world, key),
    ensures
        ({
            let (last, end) = run(world, starting(wait, unix), drawn, working(count));
            let path = world.target(PRIVATE_KEY_PATH)->0;
            &&& end.stage is Ready
            &&& end.key == Some(key)
            &&& last.links == world.links
            &&& last.files.contains_key(path)
            &&& last.files[path].text == world.files[path].text
            &&& last.files[path].mode == (if unix && !is_private(
                permissions_in(world.files[path].mode),
            ) {
                PRIVATE_KEY_FILE_MODE
            } else {
                world.files[path].mode
            })
            &&& unix ==> is_private(permissions_in(last.files[path].mode))
            &&& public_key_is_told(world, last, key)
        }),
{
    let start = starting(wait, unix);
    let path = world.target(PRIVATE_KEY_PATH)->0;
    let public_path = world.target(PUBLIC_KEY_PATH)->0;
    lemma_own_mode();
    lemma_read_is_reached(world, wait, unix, drawn);
    let settled = with_settled_key(world, path, unix);
    let read = at(start, KeyStage::Read);
    lemma_reaches_next(world, start, drawn, settled, read);
    let known = KeyState { key: Some(key), ..start };
    let write = at(known, KeyStage::WritePublic(writing(PUBLIC_KEY_PATH, false, unix)));
    assert(one_step(settled, read, drawn, Luck::Works) == (settled, write));
    lemma_write_reaches(settled, known, drawn, false);
    let last = if world.files.contains_key(public_path) {
        settled
    } else {
        with_public_key(settled, public_path, key, unix)
    };
    let ready = at(known, KeyStage::Ready);
    lemma_reaches_on(world, start, drawn, settled, write, last, ready);
    lemma_run_to_the_end(world, start, drawn, last, ready, count);
    public_key_text_is_trimmed(key);
}

/// A key file that holds no key is refused: no key is drawn in its place, and no file comes or goes.
#[verifier::spinoff_prover]
pub proof fn malformed_key_is_refused(
    world: World,
    wait: u64,
    unix: bool,
    drawn: Seq<u8>,
    count: nat,
)
    requires
        drawn.len() == SECRET_KEY_BYTES,
        count >= starting(wait, unix).stage.rank(),
        world.target(PRIVATE_KEY_PATH) is Some,
        world.files.contains_key(world.target(PRIVATE_KEY_PATH)->0),
        secret_key_of(world.files[world.target(PRIVATE_KEY_PATH)->0].text) is None,
    ensures
        ({
            let (last, end) = run(world, starting(wait, unix), drawn, working(count));
            &&& end.stage == KeyStage::Failed(KeyError::Malformed)
            &&& end.fault == key_fault(world.files[world.target(PRIVATE_KEY_PATH)->0].text)
            &&& last.files.dom() == world.files.dom()
        }),
{
    let start = starting(wait, unix);
    let path = world.target(PRIVATE_KEY_PATH)->0;
    lemma_read_is_reached(world, wait, unix, drawn);
    let settled = with_settled_key(world, path, unix);
    let read = at(start, KeyStage::Read);
    lemma_reaches_next(world, start, drawn, settled, read);
    let failed = KeyState {
        stage: KeyStage::Failed(KeyError::Malformed),
        fault: key_fault(world.files[path].text),
        ..start
    };
    assert(one_step(settled, read, drawn, Luck::Works) == (settled, failed));
    lemma_run_to_the_end(world, start, drawn, settled, failed, count);
    assert(settled.files.dom() =~= world.files.dom());
}

/// A key file that holds a key is no use beside a public key's file that holds another: that is
/// refused, and no text of a file changes.
#[verifier::spinoff_prover]
pub proof fn mismatch_with_existing_key_is_refused(
    world: World,
    wait: u64,
    unix: bool,
    drawn: Seq<u8>,
    count: nat,
    key: Seq<u8>,
)
    requires
        drawn.len() == SECRET_KEY_BYTES,
        count >= starting(wait, unix).stage.rank(),
        world.target(PRIVATE_KEY_PATH) is Some,
        world.files.contains_key(world.target(PRIVATE_KEY_PATH)->0),
        secret_key_of(world.files[world.target(PRIVATE_KEY_PATH)->0].text) == Some(key),
        world.target(PUBLIC_KEY_PATH) is Some,
        !public_key_fits(world, key),
    ensures
        ({
            let (last, end) = run(world, starting(wait, unix), drawn, working(count));
            &&& end.stage == KeyStage::Failed(
                KeyError::PublicKey(PublicKeyError::Mismatch(world.target(PUBLIC_KEY_PATH)->0)),
            )
            &&& last.files.dom() == world.files.dom()
        }),
{
    let start = starting(wait, unix);
    let path = world.target(PRIVATE_KEY_PATH)->0;
    let public_path = world.target(PUBLIC_KEY_PATH)->0;
    lemma_read_is_reached(world, wait, unix, drawn);
    let settled = with_settled_key(world, path, unix);
    let read = at(start, KeyStage::Read);
    lemma_reaches_next(world, start, drawn, settled, read);
    let known = KeyState { key: Some(key), ..start };
    let write = at(known, KeyStage::WritePublic(writing(PUBLIC_KEY_PATH, false, unix)));
    assert(one_step(settled, read, drawn, Luck::Works) == (settled, write));
    lemma_write_reaches(settled, known, drawn, false);
    let failed = at(
        known,
        KeyStage::Failed(KeyError::PublicKey(PublicKeyError::Mismatch(public_path))),
    );
    lemma_reaches_on(world, start, drawn, settled, write, settled, failed);
    lemma_run_to_the_end(world, start, drawn, settled, failed, count);
    assert(settled.files.dom() =~= world.files.dom());
}

/// The world after a key file was created and filled.
spec fn with_new_key(world: World, path: PathId, key: Seq<u8>, unix: bool) -> World {
    let mode = if unix {
        if permissions_in(world.new_key_mode) == PRIVATE_KEY_FILE_MODE {
            world.new_key_mode
        } else {
            PRIVATE_KEY_FILE_MODE
        }
    } else {
        world.new_key_mode
    };
    World {
        files: world.files.insert(path, File { text: base64_text(key), mode }),
        key_file: Some(path),
        ..world
    }
}

/// The drawn key at the stage at which its public key's file is checked.
spec fn drawn_at(wait: u64, unix: bool, drawn: Seq<u8>, stage: KeyStage) -> KeyState {
    KeyState { wait, unix, stage, key: Some(drawn), fault: None }
}

/// Where there is no key file, a run comes to read what the public key's file holds.
#[verifier::spinoff_prover]
proof fn lemma_check_is_reached(world: World, wait: u64, unix: bool, drawn: Seq<u8>)
    requires
        world.target(PRIVATE_KEY_PATH) is Some,
        !world.files.contains_key(world.target(PRIVATE_KEY_PATH)->0),
        world.target(PUBLIC_KEY_PATH) is Some,
    ensures
        reaches(
            world,
            starting(wait, unix),
            drawn,
            world,
            drawn_at(
                wait,
                unix,
                drawn,
                KeyStage::CheckPublic(
                    PublicKeyCheck::Reading(world.target(PUBLIC_KEY_PATH)->0),
                ),
            ),
        ),
{
    let start = starting(wait, unix);
    lemma_open_is_reached(world, wait, unix, drawn);
    lemma_reaches_next(world, start, drawn, world, at(start, KeyStage::Open));
    let public_path = world.target(PUBLIC_KEY_PATH)->0;
    let known = drawn_at(wait, unix, drawn, KeyStage::Ready);
    let wrap = |search: Resolve| KeyStage::from_check(PublicKeyCheck::from_search(search), unix);
    assert(wraps(known, wrap));
    let check = searching(known, wrap, resolving(PUBLIC_KEY_PATH));
    assert(one_step(world, at(start, KeyStage::Open), drawn, Luck::Works) == (world, check));
    lemma_search_reaches(world, known, drawn, wrap, PUBLIC_KEY_PATH, 0);
    let reading = searching(known, wrap, Resolve::Resolved(public_path));
    lemma_reaches_on(world, start, drawn, world, check, world, reading);
}

/// A key file is created where there is none, filled, and kept to its owner.
#[verifier::spinoff_prover]
proof fn lemma_create_reaches(world: World, wait: u64, unix: bool, drawn: Seq<u8>)
    requires
        world.target(PRIVATE_KEY_PATH) is Some,
        !world.files.contains_key(world.target(PRIVATE_KEY_PATH)->0),
        unix ==> is_private(permissions_in(world.new_key_mode)),
    ensures
        reaches(
            world,
            drawn_at(
                wait,
                unix,
                drawn,
                KeyStage::CreatePrivate(creating(PRIVATE_KEY_PATH, unix)),
            ),
            drawn,
            with_new_key(world, world.target(PRIVATE_KEY_PATH)->0, drawn, unix),
            drawn_at(
                wait,
                unix,
                drawn,
                KeyStage::WritePublic(writing(PUBLIC_KEY_PATH, true, unix)),
            ),
        ),
{
    let path = world.target(PRIVATE_KEY_PATH)->0;
    lemma_target_is_no_link(world.links, PRIVATE_KEY_PATH, MAX_KEY_SYMLINKS as nat);
    lemma_own_mode();
    let stage_at = |stage: PrivateKeyStage|
        KeyStage::CreatePrivate(PrivateKeyCreate { unix, stage });
    let known = drawn_at(wait, unix, drawn, KeyStage::Ready);
    let start = at(known, KeyStage::CreatePrivate(creating(PRIVATE_KEY_PATH, unix)));
    let wrap = |search: Resolve|
        KeyStage::from_create(
            PrivateKeyCreate { unix, stage: PrivateKeyStage::from_search(search) },
            unix,
        );
    assert(wraps(known, wrap));
    assert(start == searching(known, wrap, resolving(PRIVATE_KEY_PATH)));
    lemma_search_reaches(world, known, drawn, wrap, PRIVATE_KEY_PATH, 0);
    let create = at(known, stage_at(PrivateKeyStage::Create(path)));
    assert(create == searching(known, wrap, Resolve::Resolved(path)));
    lemma_reaches_next(world, start, drawn, world, create);
    let empty = File { text: Seq::empty(), mode: world.new_key_mode };
    let created = World {
        files: world.files.insert(path, empty),
        key_file: Some(path),
        ..world
    };
    let secured = if unix {
        let inspect = at(
            known,
            stage_at(
                PrivateKeyStage::Secure(path, Permissions::Inspect { newly_created: true }),
            ),
        );
        assert(reaches(world, start, drawn, created, inspect));
        lemma_reaches_next(world, start, drawn, created, inspect);
        if permissions_in(world.new_key_mode) == PRIVATE_KEY_FILE_MODE {
            created
        } else {
            let restrict = at(known, stage_at(PrivateKeyStage::Secure(path, Permissions::Restrict)));
            assert(reaches(world, start, drawn, created, restrict));
            lemma_reaches_next(world, start, drawn, created, restrict);
            let settled = with_mode(created, path, PRIVATE_KEY_FILE_MODE);
            let confirm = at(known, stage_at(PrivateKeyStage::Secure(path, Permissions::Confirm)));
            assert(reaches(world, start, drawn, settled, confirm));
            lemma_reaches_next(world, start, drawn, settled, confirm);
            settled
        }
    } else {
        created
    };
    let write = at(known, stage_at(PrivateKeyStage::WriteText(path)));
    assert(reaches(world, start, drawn, secured, write));
    lemma_reaches_next(world, start, drawn, secured, write);
    let last = one_step(secured, write, drawn, Luck::Works).0;
    assert(last.files =~= with_new_key(world, path, drawn, unix).files);
}

/// Where there is no key file, a key is drawn, kept and told: the outcome is that key, its file
/// holds it and is its owner's alone, and the public key's file is there.
#[verifier::spinoff_prover]
pub proof fn missing_key_is_drawn_and_kept(
    world: World,
    wait: u64,
    unix: bool,
    drawn: Seq<u8>,
    count: nat,
)
    requires
        drawn.len() == SECRET_KEY_BYTES,
        count >= starting(wait, unix).stage.rank(),
        world.target(PRIVATE_KEY_PATH) is Some,
        !world.files.contains_key(world.target(PRIVATE_KEY_PATH)->0),
        world.target(PUBLIC_KEY_PATH) != world.target(PRIVATE_KEY_PATH),
        public_key_fits(world, drawn),
        unix ==> is_private(permissions_in(world.new_key_mode)),
    ensures
        ({
            let (last, end) = run(world, starting(wait, unix), drawn, working(count));
            let path = world.target(PRIVATE_KEY_PATH)->0;
            &&& end.stage is Ready
            &&& end.key == Some(drawn)
            &&& last.links == world.links
            &&& last.files.contains_key(path)
            &&& last.files[path].text == base64_text(drawn)
            &&& unix ==> permissions_in(last.files[path].mode) == PRIVATE_KEY_FILE_MODE
            &&& public_key_is_told(world, last, drawn)
        }),
{
    let start = starting(wait, unix);
    let path = world.target(PRIVATE_KEY_PATH)->0;
    let public_path = world.target(PUBLIC_KEY_PATH)->0;
    lemma_own_mode();
    lemma_check_is_reached(world, wait, unix, drawn);
    let reading = drawn_at(
        wait,
        unix,
        drawn,
        KeyStage::CheckPublic(PublicKeyCheck::Reading(public_path)),
    );
    lemma_reaches_next(world, start, drawn, world, reading);
    let create = drawn_at(
        wait,
        unix,
        drawn,
        KeyStage::CreatePrivate(creating(PRIVATE_KEY_PATH, unix)),
    );
    assert(one_step(world, reading, drawn, Luck::Works) == (world, create));
    lemma_create_reaches(world, wait, unix, drawn);
    let kept = with_new_key(world, path, drawn, unix);
    let write = drawn_at(
        wait,
        unix,
        drawn,
        KeyStage::WritePublic(writing(PUBLIC_KEY_PATH, true, unix)),
    );
    lemma_reaches_on(world, start, drawn, world, create, kept, write);
    let known = drawn_at(wait, unix, drawn, KeyStage::Ready);
    lemma_write_reaches(kept, known, drawn, true);
    let last = if world.files.contains_key(public_path) {
        kept
    } else {
        with_public_key(kept, public_path, drawn, unix)
    };
    let ready = at(known, KeyStage::Ready);
    lemma_reaches_on(world, start, drawn, kept, write, last, ready);
    lemma_run_to_the_end(world, start, drawn, last, ready, count);
    public_key_text_is_trimmed(drawn);
}

/// Where there is no key file but a public key's file that holds another key than the one drawn,
/// the run is refused before it creates anything.
#[verifier::spinoff_prover]
pub proof fn mismatch_with_drawn_key_is_refused(
    world: World,
    wait: u64,
    unix: bool,
    drawn: Seq<u8>,
    count: nat,
)
    requires
        drawn.len() == SECRET_KEY_BYTES,
        count >= starting(wait, unix).stage.rank(),
        world.target(PRIVATE_KEY_PATH) is Some,
        !world.files.contains_key(world.target(PRIVATE_KEY_PATH)->0),
        world.target(PUBLIC_KEY_PATH) is Some,
        !public_key_fits(world, drawn),
    ensures
        ({
            let (last, end) = run(world, starting(wait, unix), drawn, working(count));
            &&& end.stage == KeyStage::Failed(
                KeyError::PublicKey(PublicKeyError::Mismatch(world.target(PUBLIC_KEY_PATH)->0)),
            )
            &&& last == world
        }),
{
    let start = starting(wait, unix);
    let public_path = world.target(PUBLIC_KEY_PATH)->0;
    lemma_check_is_reached(world, wait, unix, drawn);
    let reading = drawn_at(
        wait,
        unix,
        drawn,
        KeyStage::CheckPublic(PublicKeyCheck::Reading(public_path)),
    );
    lemma_reaches_next(world, start, drawn, world, reading);
    let failed = drawn_at(
        wait,
        unix,
        drawn,
        KeyStage::Failed(KeyError::PublicKey(PublicKeyError::Mismatch(public_path))),
    );
    assert(one_step(world, reading, drawn, Luck::Works) == (world, failed));
    lemma_run_to_the_end(world, start, drawn, world, failed, count);
}

/// Where a run ends over the public key's file, whatever failed, it has changed no file, or the key
/// file holds the key.
pub proof fn public_key_failure_keeps_the_key(
    world: World,
    wait: u64,
    unix: bool,
    drawn: Seq<u8>,
    lucks: Seq<Luck>,
)
    requires
        drawn.len() == SECRET_KEY_BYTES,
        run(world, starting(wait, unix), drawn, lucks).1.stage is Failed,
        run(world, starting(wait, unix), drawn, lucks).1.stage->Failed_0 is PublicKey,
    ensures
        ({
            let (last, end) = run(world, starting(wait, unix), drawn, lucks);
            &&& end.key is Some
            &&& last.files == world.files || key_is_kept(last, end.key->0)
        }),
{
    lemma_run_keeps_invariant(world, world, starting(wait, unix), drawn, lucks);
}

/// A file that holds a key is not one that holds its public key.
proof fn lemma_key_is_no_public_key(text: Seq<char>, key: Seq<u8>)
    requires
        secret_key_of(text) == Some(key),
    ensures
        trimmed(text) != public_key_text(key),
{
    if trimmed(text) == public_key_text(key) {
        base64_round_trip(public_half(key), public_key_text(key));
    }
}

/// `world` without the public key's file.
pub open spec fn without_public_key(world: World) -> World {
    match world.target(PUBLIC_KEY_PATH) {
        Some(path) => World { files: world.files.remove(path), ..world },
        None => world,
    }
}

/// The key with which a run ended, whatever failed in it, is found again: any later run, which
/// would draw `other`, has the same outcome, even where the public key's file is gone meanwhile,
/// and that is there afterwards.
pub proof fn kept_key_is_found_again(
    world: World,
    wait: u64,
    unix: bool,
    drawn: Seq<u8>,
    lucks: Seq<Luck>,
    later_wait: u64,
    other: Seq<u8>,
    count: nat,
    removed: bool,
)
    requires
        drawn.len() == SECRET_KEY_BYTES,
        other.len() == SECRET_KEY_BYTES,
        count >= starting(later_wait, unix).stage.rank(),
        run(world, starting(wait, unix), drawn, lucks).1.stage is Ready,
    ensures
        ({
            let (kept, end) = run(world, starting(wait, unix), drawn, lucks);
            let between = if removed {
                without_public_key(kept)
            } else {
                kept
            };
            let (last, again) = run(between, starting(later_wait, unix), other, working(count));
            &&& again.stage is Ready
            &&& again.key == end.key
            &&& again.public_key() == end.public_key()
            &&& public_key_is_told(between, last, end.key->0)
        }),
{
    let (kept, end) = run(world, starting(wait, unix), drawn, lucks);
    let key = end.key->0;
    outcome_is_kept(world, wait, unix, drawn, lucks);
    let path = kept.target(PRIVATE_KEY_PATH)->0;
    lemma_key_is_no_public_key(kept.files[path].text, key);
    let between = if removed {
        without_public_key(kept)
    } else {
        kept
    };
    assert(kept.target(PUBLIC_KEY_PATH) == Some(path) ==> trimmed(kept.files[path].text)
        == public_key_text(key));
    assert(between.target(PRIVATE_KEY_PATH) == Some(path));
    assert(between.files.contains_key(path) && between.files[path] == kept.files[path]);
    existing_key_is_read(between, later_wait, unix, other, count, key);
}

/// An existing key is no worse for a public key's file that is missing and cannot be created: the
/// key is the outcome all the same. With a key that was just drawn, that is an error.
pub proof fn only_a_new_key_needs_its_public_file(
    state: KeyState,
    path: PathId,
    answer: Answer,
    drawn: Seq<u8>,
)
    requires
        state.wf(),
        state.stage is WritePublic,
        state.stage->WritePublic_0.stage == PublicKeyStage::CreateTemporary(path),
        !(answer is Done),
    ensures
        !state.stage->WritePublic_0.required ==> state.after(answer, drawn).stage is Ready
            && state.after(answer, drawn).key == state.key,
        state.stage->WritePublic_0.required ==> state.after(answer, drawn).stage == KeyStage::Failed(
            KeyError::PublicKey(PublicKeyError::CreateTemporary),
        ),
{
}

/// Whatever failed in a run on an existing key, and however early it was cut off: the next run in
/// which all requests work has the key as its outcome, and its public key's file is there.
pub proof fn next_run_makes_up(
    world: World,
    wait: u64,
    unix: bool,
    drawn: Seq<u8>,
    lucks: Seq<Luck>,
    later_wait: u64,
    other: Seq<u8>,
    count: nat,
    key: Seq<u8>,
)
    requires
        drawn.len() == SECRET_KEY_BYTES,
        other.len() == SECRET_KEY_BYTES,
        count >= starting(later_wait, unix).stage.rank(),
        key_is_kept(world, key),
        public_key_fits(world, key),
    ensures
        ({
            let left = run(world, starting(wait, unix), drawn, lucks).0;
            let (last, end) = run(left, starting(later_wait, unix), other, working(count));
            &&& end.stage is Ready
            &&& end.key == Some(key)
            &&& public_key_is_told(world, last, key)
        }),
{
    let (left, cut) = run(world, starting(wait, unix), drawn, lucks);
    lemma_run_keeps_invariant(world, world, starting(wait, unix), drawn, lucks);
    public_key_text_is_trimmed(key);
    existing_key_is_read(left, later_wait, unix, other, count, key);
}

/// Whatever failed in a run that drew a key, and wherever it was cut off or ended after the key was
/// kept: it has changed no file, or the next run in which all requests work has that key as its
/// outcome, whatever key it would draw, and its public key's file is there.
pub proof fn next_run_finds_the_drawn_key(
    world: World,
    wait: u64,
    unix: bool,
    drawn: Seq<u8>,
    lucks: Seq<Luck>,
    later_wait: u64,
    other: Seq<u8>,
    count: nat,
)
    requires
        drawn.len() == SECRET_KEY_BYTES,
        other.len() == SECRET_KEY_BYTES,
        count >= starting(later_wait, unix).stage.rank(),
        key_is_missing(world),
        world.target(PUBLIC_KEY_PATH) != world.target(PRIVATE_KEY_PATH),
        public_key_fits(world, drawn),
        match run(world, starting(wait, unix), drawn, lucks).1.stage {
            KeyStage::WritePublic(_) | KeyStage::Ready | KeyStage::Failed(KeyError::PublicKey(_)) =>
                true,
            _ => false,
        },
    ensures
        ({
            let left = run(world, starting(wait, unix), drawn, lucks).0;
            let (last, end) = run(left, starting(later_wait, unix), other, working(count));
            ||| left.files == world.files
            ||| {
                &&& end.stage is Ready
                &&& end.key == Some(drawn)
                &&& public_key_is_told(world, last, drawn)
            }
        }),
{
    let (left, cut) = run(world, starting(wait, unix), drawn, lucks);
    lemma_run_keeps_invariant(world, world, starting(wait, unix), drawn, lucks);
    public_key_text_is_trimmed(drawn);
    if left.files != world.files {
        assert(cut.key == Some(drawn)) by {
            assert(!key_is_kept(world, cut.key->0));
        }
        assert(key_is_kept(left, drawn));
        existing_key_is_read(left, later_wait, unix, other, count, drawn);
    }
}

/// How a publication ends in a world where nothing fails, and what comes of that world.
pub open spec fn publish_end(world: World, state: PublicKeyPublish, key: Seq<u8>) -> (
    World,
    PublicKeyPublish,
)
    decreases state.rank(),
    via publish_end_decreases
{
    if state.wf() && state.request() is Some {
        let (next, answer) = world.doing(state.request()->0, key);
        publish_end(next, state.after(answer, public_key_text(key)), key)
    } else {
        (world, state)
    }
}

#[via_fn]
proof fn publish_end_decreases(world: World, state: PublicKeyPublish, key: Seq<u8>) {
    if state.wf() && state.request() is Some {
        let (next, answer) = world.doing(state.request()->0, key);
        publishing_is_bounded(state, answer, public_key_text(key));
    }
}

/// A publication that has found something in its way goes on from where its search ends.
proof fn lemma_publication_searches(world: World, start: PathId, search: Resolve, key: Seq<u8>)
    requires
        search.wf(),
        on_the_way(world.links, start, search),
        world.target(start) is Some,
        !(search is Failed),
    ensures
        publish_end(
            world,
            PublicKeyPublish::from_check(PublicKeyCheck::from_search(search)),
            key,
        ) == publish_end(
            world,
            PublicKeyPublish::Recheck(
                PublicKeyCheck::Reading(world.target(start)->0),
            ),
            key,
        ),
    decreases search.rank(),
{
    if search.request() is Some {
        lemma_stays_on_the_way(world, start, search, key, Luck::Works);
        let answer = world.doing(search.request()->0, key).1;
        resolving_is_bounded(search, answer);
        lemma_publication_searches(world, start, search.after(answer), key);
    }
}

/// A finished temporary file is given its place `start` where nothing is there. Where something is, that
/// stays as it is, and counts as published exactly where it leads to a file with the same key.
/// Either way there is no temporary file afterwards.
pub proof fn publication_replaces_nothing(world: World, start: PathId, key: Seq<u8>)
    requires
        world.temporary is Some,
        world.target(start) is Some,
    ensures
        ({
            let path = world.target(start)->0;
            let (last, end) = publish_end(world, PublicKeyPublish::Publish(start), key);
            &&& last.temporary is None
            &&& last.links == world.links
            &&& if world.is_free(start) {
                end is Published && last.files == world.files.insert(
                    start,
                    world.temporary->0,
                )
            } else {
                &&& last.files == world.files
                &&& end is Published <==> world.files.contains_key(path) && trimmed(
                    world.files[path].text,
                ) == public_key_text(key)
                &&& end is Published || end is Failed
            }
        }),
{
    let path = world.target(start)->0;
    reveal_with_fuel(publish_end, 4);
    if !world.is_free(start) {
        let search = resolving(start);
        lemma_publication_searches(world, start, search, key);
        let reading = PublicKeyPublish::Recheck(PublicKeyCheck::Reading(path));
        let publish = PublicKeyPublish::Publish(start);
        assert(publish_end(world, publish, key) == publish_end(
            world,
            PublicKeyPublish::Recheck(checking(start)),
            key,
        ));
        assert(publish_end(world, publish, key) == publish_end(world, reading, key));
    }
}

}
