//! What the key procedures do, request by request.

use vstd::prelude::*;

use crate::base64_text::{base64_bytes, base64_text, decode_fault, stands_for};
use crate::gen_sk::{gen_sk, starting, GenSk, KeyError, KeyStage, KeyState};
use crate::key_files::{Action, Answer, Event, PathId};
use crate::key_path::{
    leads_to, resolve_key_path, resolving, search_end, search_follows_links, Resolve, ResolveError,
};
use crate::key_permissions::{
    is_private, permissions_in, private_permissions, set_private_key_permissions, PermissionError,
    Permissions,
};
use crate::private_key::{
    create_private_key_file, creating, NewFileError, PrivateKeyCreate, PrivateKeyError,
    PrivateKeyStage,
};
use crate::public_key::{
    checking, missing_public_key_path, publish_public_key, write_public_key, writing,
    PublicKeyCheck, PublicKeyError, PublicKeyPublish, PublicKeyStage, PublicKeyWrite,
};
use crate::secret_key::{secret_key_of, SecretKey};
use crate::text::trimmed;
use crate::text_laws::{is_blank, is_tight, only_white_space_is_trimmed};

verus! {

/// The permissions in a mode are its last four octal digits.
proof fn lemma_permissions(mode: u32)
    ensures
        permissions_in(mode) == mode % 4096,
        permissions_in(mode) == 384 <==> mode % 4096 == 384,
{
    assert(mode & 0o7777u32 == mode % 4096) by (bit_vector);
}

/// Whether a mode gives its owner reading, writing, both or nothing, and gives nobody anything else.
pub open spec fn is_owners_alone(mode: u32) -> bool {
    mode % 4096 == 0 || mode % 4096 == 0o200 || mode % 4096 == 0o400 || mode % 4096 == 0o600
}

/// The mode of a key file that is there is left alone where it is its owner's alone, and else set to
/// 0600, read again and refused if it is not that. A mode that cannot be read or set is an error.
pub proof fn existing_key_file_is_restricted(mode: u32, answer: Answer)
    ensures
        ({
            let start = Permissions::Inspect { newly_created: false };
            &&& start.request() == Some(Action::ReadMode)
            &&& is_owners_alone(mode) ==> start.after(Answer::Mode(mode)) == Permissions::Settled
            &&& !is_owners_alone(mode) ==> start.after(Answer::Mode(mode)) == Permissions::Restrict
            &&& !(answer is Mode) ==> start.after(answer) == Permissions::Failed(
                PermissionError::Read,
            )
        }),
{
    lemma_permissions(mode);
    private_permissions(permissions_in(mode));
}

/// A new key file is refused where its mode is more than its owner's alone, and else ends with
/// 0600.
pub proof fn new_key_file_is_restricted(mode: u32, answer: Answer)
    ensures
        ({
            let start = Permissions::Inspect { newly_created: true };
            &&& start.request() == Some(Action::ReadMode)
            &&& mode % 4096 == 0o600 ==> start.after(Answer::Mode(mode)) == Permissions::Settled
            &&& is_owners_alone(mode) && mode % 4096 != 0o600 ==> start.after(Answer::Mode(mode))
                == Permissions::Restrict
            &&& !is_owners_alone(mode) ==> start.after(Answer::Mode(mode)) == Permissions::Failed(
                PermissionError::UnsafeInitial((mode % 4096) as u32),
            )
            &&& !(answer is Mode) ==> start.after(answer) == Permissions::Failed(
                PermissionError::Read,
            )
        }),
{
    lemma_permissions(mode);
    private_permissions(permissions_in(mode));
}

/// Restricting sets the permissions to 0600 and reads them again.
pub proof fn restriction_is_confirmed(mode: u32, answer: Answer)
    ensures
        Permissions::Restrict.request() == Some(Action::SetMode(0o600)),
        Permissions::Restrict.after(Answer::Done) == Permissions::Confirm,
        !(answer is Done) ==> Permissions::Restrict.after(answer) == Permissions::Failed(
            PermissionError::Restrict,
        ),
        Permissions::Confirm.request() == Some(Action::ReadMode),
        mode % 4096 == 0o600 ==> Permissions::Confirm.after(Answer::Mode(mode))
            == Permissions::Settled,
        mode % 4096 != 0o600 ==> Permissions::Confirm.after(Answer::Mode(mode))
            == Permissions::Failed(PermissionError::Unexpected((mode % 4096) as u32)),
        !(answer is Mode) ==> Permissions::Confirm.after(answer) == Permissions::Failed(
            PermissionError::Read,
        ),
        Permissions::Settled.request() is None,
{
    lemma_permissions(mode);
}

/// As many as 40 links are followed from one path.
pub proof fn forty_links_are_followed(links: Map<PathId, PathId>, path: PathId)
    ensures
        resolving(path).request() == Some(Action::Inspect(path)),
        leads_to(links, path, 40) is Some ==> search_end(links, resolving(path))
            == Resolve::Resolved(leads_to(links, path, 40)->0),
        leads_to(links, path, 40) is None ==> search_end(links, resolving(path)) is Failed
            && search_end(links, resolving(path))->Failed_0 is TooManySymlinks,
{
    search_follows_links(links, path);
}

/// A search looks at a path before it follows a link there, takes a path without a link as it is,
/// whether or not something is there, and ends where it is told nothing.
pub proof fn search_goes_link_by_link(path: PathId, target: PathId, hops: usize, answer: Answer)
    requires
        hops < 40,
    ensures
        ({
            let inspect = Resolve::Inspect { path, hops };
            let follow = inspect.after(Answer::Symlink);
            &&& inspect.request() == Some(Action::Inspect(path))
            &&& inspect.after(Answer::Done) == Resolve::Resolved(path)
            &&& inspect.after(Answer::NotFound) == Resolve::Resolved(path)
            &&& follow.request() == Some(Action::FollowLink(path))
            &&& follow.after(Answer::Link(target)) == (Resolve::Inspect {
                path: target,
                hops: (hops + 1) as usize,
            })
            &&& !(answer is Done) && !(answer is NotFound) && !(answer is Symlink) ==> inspect.after(
                answer,
            ) == Resolve::Failed(ResolveError::Inspect(path))
            &&& !(answer is Link) ==> follow.after(answer) == Resolve::Failed(
                ResolveError::ReadLink(path),
            )
        }),
{
}

/// A key file is created anew with the mode 0600 at the place to which its path leads. On Unix its
/// permissions are settled before the key is written to it.
pub proof fn key_file_is_created_then_secured(path: PathId, unix: bool, search: Resolve, answer: Answer)
    ensures
        ({
            let at = |stage: PrivateKeyStage| PrivateKeyCreate { unix, stage };
            let create = at(PrivateKeyStage::Create(path));
            let secure = at(
                PrivateKeyStage::Secure(path, Permissions::Inspect { newly_created: true }),
            );
            let write = at(PrivateKeyStage::WriteText(path));
            &&& creating(path, unix) == at(PrivateKeyStage::Resolving(resolving(path)))
            &&& search.after(answer) == Resolve::Resolved(path) ==> at(
                PrivateKeyStage::Resolving(search),
            ).after(answer) == create
            &&& create.request() == Some(Action::CreateNew(path, 0o600))
            &&& create.after(Answer::Done) == (if unix {
                secure
            } else {
                write
            })
            &&& !(answer is Done) ==> create.after(answer) == at(
                PrivateKeyStage::Failed(PrivateKeyError::Create(path)),
            )
            &&& write.request() == Some(Action::WriteKey)
            &&& write.after(Answer::Done) == at(PrivateKeyStage::Created)
        }),
{
}

/// A key file whose permissions are settled is written. Where they are not, or where it cannot be
/// written, it is removed, and why is told; that it could not be removed, too.
pub proof fn broken_key_file_is_removed(
    path: PathId,
    unix: bool,
    permissions: Permissions,
    answer: Answer,
    error: NewFileError,
)
    ensures
        ({
            let at = |stage: PrivateKeyStage| PrivateKeyCreate { unix, stage };
            let secure = at(PrivateKeyStage::Secure(path, permissions));
            let write = at(PrivateKeyStage::WriteText(path));
            let remove = |error: NewFileError| at(PrivateKeyStage::Remove(path, error));
            &&& secure.request() == permissions.request()
            &&& permissions.after(answer) == Permissions::Settled ==> secure.after(answer) == write
            &&& permissions.after(answer) is Failed ==> secure.after(answer) == remove(
                NewFileError::Permissions(permissions.after(answer)->Failed_0),
            )
            &&& permissions.after(answer).request() is Some ==> secure.after(answer) == at(
                PrivateKeyStage::Secure(path, permissions.after(answer)),
            )
            &&& !(answer is Done) ==> write.after(answer) == remove(NewFileError::Write)
            &&& remove(error).request() == Some(Action::Remove(path))
            &&& remove(error).after(Answer::Done) == at(
                PrivateKeyStage::Failed(PrivateKeyError::NewFile(error)),
            )
            &&& !(answer is Done) ==> remove(error).after(answer) == at(
                PrivateKeyStage::Failed(PrivateKeyError::Remove(path, error)),
            )
        }),
{
}

/// The public key's file is read where its path leads. It holds the key where its text is that with
/// nothing but white space around it, and else another; a file that is not there is missing, and one
/// that cannot be read is an error.
pub proof fn public_key_file_is_compared(
    path: PathId,
    before: Seq<char>,
    text: Seq<char>,
    after: Seq<char>,
    public_key: Seq<char>,
    answer: Answer,
)
    requires
        is_blank(before),
        is_tight(text),
        is_blank(after),
    ensures
        ({
            let read = PublicKeyCheck::Reading(path);
            &&& checking(path) == PublicKeyCheck::Resolving(resolving(path))
            &&& read.request() == Some(Action::ReadText(path))
            &&& text == public_key ==> read.after(Answer::Text(before + text + after), public_key)
                == PublicKeyCheck::Present
            &&& text != public_key ==> read.after(Answer::Text(before + text + after), public_key)
                == PublicKeyCheck::Failed(PublicKeyError::Mismatch(path))
            &&& read.after(Answer::NotFound, public_key) == PublicKeyCheck::Missing(path)
            &&& !(answer is Text) && !(answer is NotFound) ==> read.after(answer, public_key)
                == PublicKeyCheck::Failed(PublicKeyError::Read(path))
        }),
{
    only_white_space_is_trimmed(before, text, after);
}

/// The check reads at the end of its search, and fails where that fails.
pub proof fn check_follows_its_search(search: Resolve, answer: Answer, public_key: Seq<char>)
    requires
        search.request() is Some,
    ensures
        ({
            let next = PublicKeyCheck::Resolving(search).after(answer, public_key);
            &&& PublicKeyCheck::Resolving(search).request() == search.request()
            &&& match search.after(answer) {
                Resolve::Resolved(path) => next == PublicKeyCheck::Reading(path),
                Resolve::Failed(error) => next == PublicKeyCheck::Failed(
                    PublicKeyError::Resolve(error),
                ),
                other => next == PublicKeyCheck::Resolving(other),
            }
        }),
{
}

/// A missing public key's file is first a temporary one. On Unix that is given to its owner to read
/// and to write, if it is not theirs already. It is written and brought to the disk before it gets
/// its place.
pub proof fn temporary_file_is_finished_first(
    path: PathId,
    required: bool,
    unix: bool,
    mode: u32,
    public_key: Seq<char>,
)
    ensures
        ({
            let at = |stage: PublicKeyStage| PublicKeyWrite { required, unix, stage };
            let create = at(PublicKeyStage::CreateTemporary(path));
            let read = at(PublicKeyStage::ReadMode(path));
            let set = at(PublicKeyStage::SetMode(path, mode | 0o600u32));
            let write = at(PublicKeyStage::WriteText(path));
            let sync = at(PublicKeyStage::Sync(path));
            let publish = at(PublicKeyStage::Publish(PublicKeyPublish::Publish(path)));
            &&& writing(path, required, unix) == at(PublicKeyStage::Check(checking(path)))
            &&& create.request() == Some(Action::CreateTemporary(path))
            &&& create.after(Answer::Done, public_key) == (if unix {
                read
            } else {
                write
            })
            &&& read.request() == Some(Action::ReadTemporaryMode)
            &&& read.after(Answer::Mode(mode), public_key) == (if mode | 0o600u32 == mode {
                write
            } else {
                set
            })
            &&& set.request() == Some(Action::SetTemporaryMode(mode | 0o600u32))
            &&& set.after(Answer::Done, public_key) == write
            &&& write.request() == Some(Action::WriteTemporary)
            &&& write.after(Answer::Done, public_key) == sync
            &&& sync.request() == Some(Action::SyncTemporary)
            &&& sync.after(Answer::Done, public_key) == publish
            &&& publish.request() == Some(Action::Publish(path))
            &&& publish.after(Answer::Done, public_key) == at(PublicKeyStage::Written)
        }),
{
    assert((mode & 0o600u32 == 0o600u32) <==> (mode | 0o600u32 == mode)) by (bit_vector);
}

/// A file that is there decides whether the public key's file is written; where it is missing, it is.
pub proof fn write_follows_its_check(
    required: bool,
    unix: bool,
    check: PublicKeyCheck,
    answer: Answer,
    public_key: Seq<char>,
)
    requires
        check.request() is Some,
    ensures
        ({
            let at = |stage: PublicKeyStage| PublicKeyWrite { required, unix, stage };
            let next = at(PublicKeyStage::Check(check)).after(answer, public_key);
            &&& at(PublicKeyStage::Check(check)).request() == check.request()
            &&& match check.after(answer, public_key) {
                PublicKeyCheck::Present => next == at(PublicKeyStage::Written),
                PublicKeyCheck::Missing(path) => next == at(PublicKeyStage::CreateTemporary(path)),
                PublicKeyCheck::Failed(error) => next == at(PublicKeyStage::Failed(error)),
                other => next == at(PublicKeyStage::Check(other)),
            }
        }),
{
}

/// What goes wrong with the public key's file is told. Only that no temporary file could be created
/// is no error, where the file is not required. A temporary file that was created is removed first.
pub proof fn failures_with_the_temporary_file_are_told(
    path: PathId,
    required: bool,
    unix: bool,
    mode: u32,
    error: PublicKeyError,
    answer: Answer,
    discarded: Answer,
    public_key: Seq<char>,
)
    ensures
        ({
            let at = |stage: PublicKeyStage| PublicKeyWrite { required, unix, stage };
            let failed = |error: PublicKeyError| at(PublicKeyStage::Failed(error));
            let after = |stage: PublicKeyStage| at(stage).after(answer, public_key);
            let discard = |error: PublicKeyError| at(PublicKeyStage::Discard(error));
            let publish = PublicKeyStage::Publish(PublicKeyPublish::Publish(path));
            &&& !(answer is Done) ==> after(PublicKeyStage::CreateTemporary(path)) == (if required {
                failed(PublicKeyError::CreateTemporary)
            } else {
                at(PublicKeyStage::Skipped)
            })
            &&& !(answer is Mode) ==> after(PublicKeyStage::ReadMode(path)) == discard(
                PublicKeyError::ReadTemporaryMode,
            )
            &&& !(answer is Done) ==> after(PublicKeyStage::SetMode(path, mode)) == discard(
                PublicKeyError::SetTemporaryMode,
            )
            &&& !(answer is Done) ==> after(PublicKeyStage::WriteText(path)) == discard(
                PublicKeyError::WriteTemporary,
            )
            &&& !(answer is Done) ==> after(PublicKeyStage::Sync(path)) == discard(
                PublicKeyError::SyncTemporary,
            )
            &&& discard(error).request() == Some(Action::DiscardTemporary)
            &&& discard(error).after(discarded, public_key) == failed(error)
            &&& !(answer is Done) && !(answer is AlreadyExists) ==> after(publish).request() == Some(
                Action::DiscardTemporary,
            ) && after(publish).after(discarded, public_key) == failed(PublicKeyError::Publish)
        }),
{
}

/// Something in the way of the new file is checked as the public key's file is. The temporary file is
/// removed after that. The same key counts as published; what is gone again does not.
pub proof fn what_is_in_the_way_is_checked(
    path: PathId,
    check: PublicKeyCheck,
    answer: Answer,
    discarded: Answer,
    public_key: Seq<char>,
)
    requires
        check.request() is Some,
    ensures
        ({
            let found = PublicKeyPublish::Publish(path).after(Answer::AlreadyExists, public_key);
            let next = PublicKeyPublish::Recheck(check).after(answer, public_key);
            let last = next.after(discarded, public_key);
            &&& found == PublicKeyPublish::Recheck(checking(path))
            &&& PublicKeyPublish::Recheck(check).request() == check.request()
            &&& match check.after(answer, public_key) {
                PublicKeyCheck::Present => next.request() == Some(Action::DiscardTemporary) && last
                    == PublicKeyPublish::Published,
                PublicKeyCheck::Missing(_) => next.request() == Some(Action::DiscardTemporary)
                    && last == PublicKeyPublish::Failed(PublicKeyError::Disappeared),
                PublicKeyCheck::Failed(error) => next.request() == Some(Action::DiscardTemporary)
                    && last == PublicKeyPublish::Failed(error),
                other => next == PublicKeyPublish::Recheck(other),
            }
        }),
{
}

/// A publication that is part of a write ends it.
pub proof fn write_follows_its_publication(
    required: bool,
    unix: bool,
    publish: PublicKeyPublish,
    answer: Answer,
    public_key: Seq<char>,
)
    requires
        publish.request() is Some,
    ensures
        ({
            let at = |stage: PublicKeyStage| PublicKeyWrite { required, unix, stage };
            let next = at(PublicKeyStage::Publish(publish)).after(answer, public_key);
            &&& at(PublicKeyStage::Publish(publish)).request() == publish.request()
            &&& match publish.after(answer, public_key) {
                PublicKeyPublish::Published => next == at(PublicKeyStage::Written),
                PublicKeyPublish::Failed(error) => next == at(PublicKeyStage::Failed(error)),
                other => next == at(PublicKeyStage::Publish(other)),
            }
        }),
{
}

/// A key file is waited for only where a wait is asked for and there is none, and just that long.
/// Then it is opened.
pub proof fn missing_key_file_is_waited_for(wait: u64, unix: bool, answer: Answer, drawn: Seq<u8>)
    ensures
        ({
            let start = starting(wait, unix);
            let open = KeyState { stage: KeyStage::Open, ..start };
            let sleep = KeyState { stage: KeyStage::Sleep, ..start };
            &&& start.key is None
            &&& start.unix == unix
            &&& start.fault is None
            &&& wait == 0 ==> start == open
            &&& wait > 0 ==> start.request() == Some(Action::Exists(0))
            &&& wait > 0 ==> start.after(Answer::Present, drawn) == open
            &&& wait > 0 && !(answer is Present) ==> start.after(answer, drawn) == sleep
            &&& sleep.request() == Some(Action::Sleep(wait))
            &&& sleep.after(answer, drawn) == open
            &&& open.request() == Some(Action::Open(0))
        }),
{
}

/// A key file that is opened has its permissions settled, on Unix, and is read. A key is drawn only
/// where there is no key file; one that cannot be opened is an error.
pub proof fn key_file_is_read_or_a_key_is_drawn(state: KeyState, answer: Answer, drawn: Seq<u8>)
    requires
        state.stage is Open,
    ensures
        ({
            let read = KeyState { stage: KeyStage::Read, ..state };
            let settle = KeyState {
                stage: KeyStage::Settle(Permissions::Inspect { newly_created: false }),
                ..state
            };
            let check = KeyState {
                stage: KeyStage::CheckPublic(checking(1)),
                key: Some(drawn),
                ..state
            };
            &&& state.after(Answer::Done, drawn) == (if state.unix {
                settle
            } else {
                read
            })
            &&& state.after(Answer::NotFound, drawn) == check
            &&& !(answer is Done) && !(answer is NotFound) ==> state.after(answer, drawn) == (
            KeyState { stage: KeyStage::Failed(KeyError::Open), ..state })
            &&& read.request() == Some(Action::ReadKey)
        }),
{
}

/// The permissions of an existing key file are settled before it is read.
pub proof fn key_file_is_settled_before_it_is_read(
    state: KeyState,
    permissions: Permissions,
    answer: Answer,
    drawn: Seq<u8>,
)
    requires
        state.stage == KeyStage::Settle(permissions),
        permissions.request() is Some,
    ensures
        state.request() == permissions.request(),
        state.after(answer, drawn) == (KeyState {
            stage: match permissions.after(answer) {
                Permissions::Settled => KeyStage::Read,
                Permissions::Failed(error) => KeyStage::Failed(KeyError::Permissions(error)),
                other => KeyStage::Settle(other),
            },
            ..state
        }),
{
}

/// The key that a key file holds is taken, and the public key's file is brought in line with it where
/// it can be. A file that holds none is malformed, with what is wrong where it is no base64 text, and
/// one that cannot be read is an error.
pub proof fn key_of_the_file_is_taken(
    state: KeyState,
    contents: Seq<char>,
    answer: Answer,
    drawn: Seq<u8>,
)
    requires
        state.stage is Read,
    ensures
        ({
            let next = state.after(Answer::Text(contents), drawn);
            &&& secret_key_of(contents) is Some ==> next.key == secret_key_of(contents) && next.stage
                == KeyStage::WritePublic(writing(1, false, state.unix))
            &&& secret_key_of(contents) is None ==> next.key is None && next.stage
                == KeyStage::Failed(KeyError::Malformed)
            &&& !(answer is Text) ==> state.after(answer, drawn).stage == KeyStage::Failed(
                KeyError::Read,
            )
            &&& next.fault is Some <==> forall|bytes: Seq<u8>|
                !#[trigger] stands_for(trimmed(contents), bytes)
            &&& next.fault is Some ==> next.fault->0 == decode_fault(trimmed(contents))
        }),
{
    reveal(base64_bytes);
}

/// A drawn key is kept once the public key's file is known to be missing or to hold its public key.
/// After it is kept, the public key's file is written, and has to be.
pub proof fn drawn_key_is_kept_then_told(
    state: KeyState,
    check: PublicKeyCheck,
    create: PrivateKeyCreate,
    answer: Answer,
    drawn: Seq<u8>,
)
    requires
        check.request() is Some,
        create.request() is Some,
        state.key is Some,
    ensures
        ({
            let at = |stage: KeyStage| KeyState { stage, ..state };
            let keep = KeyStage::CreatePrivate(creating(0, state.unix));
            let public_key = base64_text(state.key->0.subrange(32, 64));
            let checked = at(KeyStage::CheckPublic(check)).after(answer, drawn);
            let created = at(KeyStage::CreatePrivate(create)).after(answer, drawn);
            &&& at(KeyStage::CheckPublic(check)).request() == check.request()
            &&& checked == at(
                match check.after(answer, public_key) {
                    PublicKeyCheck::Present => keep,
                    PublicKeyCheck::Missing(_) => keep,
                    PublicKeyCheck::Failed(error) => KeyStage::Failed(KeyError::PublicKey(error)),
                    other => KeyStage::CheckPublic(other),
                },
            )
            &&& at(KeyStage::CreatePrivate(create)).request() == create.request()
            &&& created == at(
                match create.after(answer).stage {
                    PrivateKeyStage::Created => KeyStage::WritePublic(writing(1, true, state.unix)),
                    PrivateKeyStage::Failed(error) => KeyStage::Failed(KeyError::Create(error)),
                    _ => KeyStage::CreatePrivate(create.after(answer)),
                },
            )
        }),
{
}

/// The key is the outcome once the public key's file is in line or may stay missing.
pub proof fn key_is_ready_after_its_public_key(
    state: KeyState,
    write: PublicKeyWrite,
    answer: Answer,
    drawn: Seq<u8>,
)
    requires
        state.stage == KeyStage::WritePublic(write),
        write.request() is Some,
        state.key is Some,
    ensures
        ({
            let public_key = base64_text(state.key->0.subrange(32, 64));
            let next = write.after(answer, public_key);
            &&& state.request() == write.request()
            &&& state.after(answer, drawn) == (KeyState {
                stage: match next.stage {
                    PublicKeyStage::Written => KeyStage::Ready,
                    PublicKeyStage::Skipped => KeyStage::Ready,
                    PublicKeyStage::Failed(error) => KeyStage::Failed(KeyError::PublicKey(error)),
                    _ => KeyStage::WritePublic(next),
                },
                ..state
            })
        }),
{
}

/// A procedure that has ended asks for nothing, and stays as it is.
pub proof fn end_is_the_end(state: KeyState, answer: Answer, drawn: Seq<u8>)
    requires
        state.stage is Ready || state.stage is Failed,
    ensures
        state.request() is None,
        state.after(answer, drawn) == state,
{
}

/// `GenSk` goes from state to state as `KeyState` does, and asks for what that asks for. It ends with
/// the key and its public key, or with the error.
pub proof fn procedure_follows_its_states(
    wait: u64,
    unix: bool,
    first: GenSk,
    machine: GenSk,
    event: Event,
    drawn: SecretKey,
    next: GenSk,
    action: Option<Action>,
    stage: KeyStage,
    key_text: Option<String>,
    public_key: Option<String>,
    fault: Option<String>,
    outcome: Option<Result<(String, SecretKey), KeyError>>,
)
    requires
        call_ensures(gen_sk, (wait, unix), first),
        call_ensures(GenSk::step_with, (machine, event, drawn), next),
        call_ensures(GenSk::action, (&machine,), action),
        call_ensures(GenSk::stage, (&machine,), stage),
        call_ensures(GenSk::key_text, (&machine,), key_text),
        call_ensures(GenSk::public_key, (&machine,), public_key),
        call_ensures(GenSk::fault, (&machine,), fault),
        call_ensures(GenSk::outcome, (machine,), outcome),
    ensures
        first@ == starting(wait, unix),
        next@ == machine@.after(event@, drawn@),
        action == machine@.request(),
        stage == machine@.stage,
        key_text is Some <==> machine@.key is Some,
        key_text is Some ==> key_text->0@ == base64_text(machine@.key->0),
        public_key is Some <==> machine@.key is Some,
        public_key is Some ==> public_key->0@ == base64_text(machine@.key->0.subrange(32, 64)),
        fault is Some <==> machine@.fault is Some,
        fault is Some ==> fault->0@ == machine@.fault->0,
        outcome is None <==> !(machine@.stage is Ready) && !(machine@.stage is Failed),
        machine@.stage is Ready ==> outcome is Some && outcome->0 is Ok && outcome->0->Ok_0.1@
            == machine@.key->0 && outcome->0->Ok_0.0@ == base64_text(
            machine@.key->0.subrange(32, 64),
        ),
        machine@.stage is Failed ==> outcome is Some && outcome->0 is Err && outcome->0->Err_0
            == machine@.stage->Failed_0,
{
}

/// `GenSk::step` does as `GenSk::step_with` does with a key of its own, which it draws only where
/// there is no key file.
pub proof fn step_draws_only_a_missing_key(
    machine: GenSk,
    event: Event,
    next: GenSk,
    drawn: SecretKey,
    other: GenSk,
)
    requires
        call_ensures(GenSk::step, (machine, event), next),
        call_ensures(GenSk::step_with, (machine, event, drawn), other),
    ensures
        !(machine@.stage is Open && event@ is NotFound) ==> next@ == other@,
        machine@.stage is Open && event@ is NotFound ==> next@.stage == other@.stage
            && next@.key is Some && next@.fault == other@.fault && next@.unix == other@.unix,
{
}

/// The parts of the procedure go from state to state as their `after` says, and ask for what their
/// `request` says.
pub proof fn parts_follow_their_states(
    path: PathId,
    required: bool,
    unix: bool,
    event: &Event,
    public_key: &String,
    search: (Resolve, Resolve, Option<Action>, Resolve),
    permissions: (Permissions, Permissions, Option<Action>, Permissions),
    create: (PrivateKeyCreate, PrivateKeyCreate, Option<Action>, PrivateKeyCreate),
    check: (PublicKeyCheck, PublicKeyCheck, Option<Action>, PublicKeyCheck),
    publish: (PublicKeyPublish, PublicKeyPublish, Option<Action>, PublicKeyPublish),
    write: (PublicKeyWrite, PublicKeyWrite, Option<Action>, PublicKeyWrite),
)
    requires
        call_ensures(resolve_key_path, (path,), search.3),
        call_ensures(Resolve::step, (search.0, event), search.1),
        call_ensures(Resolve::action, (&search.0,), search.2),
        call_ensures(set_private_key_permissions, (required,), permissions.3),
        call_ensures(Permissions::step, (permissions.0, event), permissions.1),
        call_ensures(Permissions::action, (&permissions.0,), permissions.2),
        call_ensures(create_private_key_file, (path, unix), create.3),
        call_ensures(PrivateKeyCreate::step, (create.0, event), create.1),
        call_ensures(PrivateKeyCreate::action, (&create.0,), create.2),
        call_ensures(missing_public_key_path, (path,), check.3),
        call_ensures(PublicKeyCheck::step, (check.0, event, public_key), check.1),
        call_ensures(PublicKeyCheck::action, (&check.0,), check.2),
        call_ensures(publish_public_key, (path,), publish.3),
        call_ensures(PublicKeyPublish::step, (publish.0, event, public_key), publish.1),
        call_ensures(PublicKeyPublish::action, (&publish.0,), publish.2),
        call_ensures(write_public_key, (path, required, unix), write.3),
        call_ensures(PublicKeyWrite::step, (write.0, event, public_key), write.1),
        call_ensures(PublicKeyWrite::action, (&write.0,), write.2),
    ensures
        search.3 == resolving(path),
        search.1 == search.0.after(event@),
        search.2 == search.0.request(),
        permissions.3 == (Permissions::Inspect { newly_created: required }),
        permissions.1 == permissions.0.after(event@),
        permissions.2 == permissions.0.request(),
        create.3 == creating(path, unix),
        create.1 == create.0.after(event@),
        create.2 == create.0.request(),
        check.3 == checking(path),
        check.1 == check.0.after(event@, public_key@),
        check.2 == check.0.request(),
        publish.3 == PublicKeyPublish::Publish(path),
        publish.1 == publish.0.after(event@, public_key@),
        publish.2 == publish.0.request(),
        write.3 == writing(path, required, unix),
        write.1 == write.0.after(event@, public_key@),
        write.2 == write.0.request(),
{
}

}
