//! The server's key: read from its file, or drawn and kept there when there is none.

use vstd::prelude::*;

use crate::base64_text::base64_text;
use crate::key_files::{Action, Answer, Event, PRIVATE_KEY_PATH, PUBLIC_KEY_PATH};
use crate::key_permissions::{
    set_private_key_permissions, settling_is_bounded, PermissionError, Permissions,
};
use crate::private_key::{
    create_private_key_file, creating, creating_is_bounded, PrivateKeyCreate, PrivateKeyError,
    PrivateKeyStage,
};
use crate::public_key::{
    checking, checking_is_bounded, missing_public_key_path, write_public_key, writing,
    writing_is_bounded, PublicKeyCheck, PublicKeyError, PublicKeyStage, PublicKeyWrite,
};
use crate::secret_key::{
    generate_key_pair, is_kept_drawing, key_fault, parse_secret_key, public_key_text, secret_key_of, SecretKey,
    SECRET_KEY_BYTES,
};

verus! {

/// Why there is no key.
#[derive(Clone, Copy, PartialEq, Eq, Structural, Debug)]
pub enum KeyError {
    /// The key file could not be opened, though it may be there.
    Open,
    /// The permissions of the key file were not settled.
    Permissions(PermissionError),
    /// The key file could not be read.
    Read,
    /// The key file does not hold a key.
    Malformed,
    /// The public key's file was not brought in line.
    PublicKey(PublicKeyError),
    /// The key file was not created.
    Create(PrivateKeyError),
}

/// How far the key is.
#[derive(Clone, Copy, PartialEq, Eq, Structural, Debug)]
pub enum KeyStage {
    /// Find out whether the key file exists.
    Exists,
    /// Give whoever provides the key file time to do so.
    Sleep,
    Open,
    Settle(Permissions),
    Read,
    CheckPublic(PublicKeyCheck),
    CreatePrivate(PrivateKeyCreate),
    WritePublic(PublicKeyWrite),
    /// The key is there.
    Ready,
    Failed(KeyError),
}

/// Getting the server's key.
pub struct GenSk {
    wait: u64,
    unix: bool,
    stage: KeyStage,
    key: Option<SecretKey>,
    public_key: String,
    fault: Option<String>,
}

/// A `GenSk` as mathematics has it.
pub struct KeyState {
    /// How many milliseconds to wait for a key file that does not exist.
    pub wait: u64,
    /// Whether files have a mode.
    pub unix: bool,
    pub stage: KeyStage,
    /// The key, once it is known.
    pub key: Option<Seq<u8>>,
    /// What is wrong with the base64 text of the key file, once that is known.
    pub fault: Option<Seq<char>>,
}

impl View for GenSk {
    type V = KeyState;

    closed spec fn view(&self) -> KeyState {
        KeyState {
            wait: self.wait,
            unix: self.unix,
            stage: self.stage,
            key: match self.key {
                Some(key) => Some(key@),
                None => None,
            },
            fault: match self.fault {
                Some(fault) => Some(fault@),
                None => None,
            },
        }
    }
}

impl KeyStage {
    /// The stage while the permissions of an existing key file are settled, or after that.
    pub open spec fn from_permissions(permissions: Permissions) -> KeyStage {
        match permissions {
            Permissions::Settled => KeyStage::Read,
            Permissions::Failed(error) => KeyStage::Failed(KeyError::Permissions(error)),
            _ => KeyStage::Settle(permissions),
        }
    }

    /// The stage while the public key's file is checked for a new key, or after that.
    pub open spec fn from_check(check: PublicKeyCheck, unix: bool) -> KeyStage {
        match check {
            PublicKeyCheck::Present => KeyStage::CreatePrivate(creating(PRIVATE_KEY_PATH, unix)),
            PublicKeyCheck::Missing(path) => KeyStage::CreatePrivate(
                creating(PRIVATE_KEY_PATH, unix),
            ),
            PublicKeyCheck::Failed(error) => KeyStage::Failed(KeyError::PublicKey(error)),
            _ => KeyStage::CheckPublic(check),
        }
    }

    /// The stage while the key file is created, or after that.
    pub open spec fn from_create(create: PrivateKeyCreate, unix: bool) -> KeyStage {
        match create.stage {
            PrivateKeyStage::Created => KeyStage::WritePublic(
                writing(PUBLIC_KEY_PATH, true, unix),
            ),
            PrivateKeyStage::Failed(error) => KeyStage::Failed(KeyError::Create(error)),
            _ => KeyStage::CreatePrivate(create),
        }
    }

    /// The stage while the public key's file is written, or after that.
    pub open spec fn from_write(write: PublicKeyWrite) -> KeyStage {
        match write.stage {
            PublicKeyStage::Written => KeyStage::Ready,
            PublicKeyStage::Skipped => KeyStage::Ready,
            PublicKeyStage::Failed(error) => KeyStage::Failed(KeyError::PublicKey(error)),
            _ => KeyStage::WritePublic(write),
        }
    }

    /// How many requests there can still be.
    pub open spec fn rank(self) -> nat {
        match self {
            KeyStage::Exists => 900,
            KeyStage::Sleep => 800,
            KeyStage::Open => 700,
            KeyStage::Settle(permissions) => permissions.rank() + 600,
            KeyStage::Read => 500,
            KeyStage::CheckPublic(check) => check.rank() + 300,
            KeyStage::CreatePrivate(create) => create.stage.rank() + 200,
            KeyStage::WritePublic(write) => write.stage.rank(),
            _ => 0,
        }
    }

    fn permissions(permissions: Permissions) -> (r: KeyStage)
        ensures
            r == KeyStage::from_permissions(permissions),
    {
        match permissions {
            Permissions::Settled => KeyStage::Read,
            Permissions::Failed(error) => KeyStage::Failed(KeyError::Permissions(error)),
            _ => KeyStage::Settle(permissions),
        }
    }

    fn check(check: PublicKeyCheck, unix: bool) -> (r: KeyStage)
        ensures
            r == KeyStage::from_check(check, unix),
    {
        match check {
            PublicKeyCheck::Present | PublicKeyCheck::Missing(_) => KeyStage::CreatePrivate(
                create_private_key_file(PRIVATE_KEY_PATH, unix),
            ),
            PublicKeyCheck::Failed(error) => KeyStage::Failed(KeyError::PublicKey(error)),
            _ => KeyStage::CheckPublic(check),
        }
    }

    fn create(create: PrivateKeyCreate, unix: bool) -> (r: KeyStage)
        ensures
            r == KeyStage::from_create(create, unix),
    {
        match create.stage {
            PrivateKeyStage::Created => KeyStage::WritePublic(
                write_public_key(PUBLIC_KEY_PATH, true, unix),
            ),
            PrivateKeyStage::Failed(error) => KeyStage::Failed(KeyError::Create(error)),
            _ => KeyStage::CreatePrivate(create),
        }
    }

    fn write(write: PublicKeyWrite) -> (r: KeyStage)
        ensures
            r == KeyStage::from_write(write),
    {
        match write.stage {
            PublicKeyStage::Written | PublicKeyStage::Skipped => KeyStage::Ready,
            PublicKeyStage::Failed(error) => KeyStage::Failed(KeyError::PublicKey(error)),
            _ => KeyStage::WritePublic(write),
        }
    }
}

impl KeyState {
    /// A part that goes on is well formed, and there is a key wherever one is needed.
    pub open spec fn wf(self) -> bool {
        &&& self.key is Some ==> self.key->0.len() == SECRET_KEY_BYTES
        &&& match self.stage {
            KeyStage::Settle(permissions) => permissions.request() is Some,
            KeyStage::CheckPublic(check) => check.wf() && check.request() is Some && self.key
                is Some,
            KeyStage::CreatePrivate(create) => create.wf() && create.request() is Some && create.unix
                == self.unix && self.key is Some,
            KeyStage::WritePublic(write) => write.wf() && write.request() is Some && write.unix
                == self.unix && self.key is Some,
            KeyStage::Ready => self.key is Some,
            _ => true,
        }
    }

    /// What is asked for in this state.
    pub open spec fn request(self) -> Option<Action> {
        match self.stage {
            KeyStage::Exists => Some(Action::Exists(PRIVATE_KEY_PATH)),
            KeyStage::Sleep => Some(Action::Sleep(self.wait)),
            KeyStage::Open => Some(Action::Open(PRIVATE_KEY_PATH)),
            KeyStage::Settle(permissions) => permissions.request(),
            KeyStage::Read => Some(Action::ReadKey),
            KeyStage::CheckPublic(check) => check.request(),
            KeyStage::CreatePrivate(create) => create.request(),
            KeyStage::WritePublic(write) => write.request(),
            _ => None,
        }
    }

    /// The text of the public key, once the key is known.
    pub open spec fn public_key(self) -> Seq<char> {
        public_key_text(self.key->0)
    }

    /// Whether a key is drawn after an answer: only where there is no key file.
    pub open spec fn draws(self, answer: Answer) -> bool {
        self.stage is Open && answer is NotFound
    }

    /// The key after an answer: the one that was read, or `drawn`.
    pub open spec fn key_after(self, answer: Answer, drawn: Seq<u8>) -> Option<Seq<u8>> {
        match (self.stage, answer) {
            (KeyStage::Read, Answer::Text(contents)) => secret_key_of(contents),
            _ => if self.draws(answer) {
                Some(drawn)
            } else {
                self.key
            },
        }
    }

    /// What is wrong with the base64 text of the key file after an answer: what was read.
    pub open spec fn fault_after(self, answer: Answer) -> Option<Seq<char>> {
        match (self.stage, answer) {
            (KeyStage::Read, Answer::Text(contents)) => key_fault(contents),
            _ => self.fault,
        }
    }

    /// The stage after an answer. An existing key file is read, and the public key's file is
    /// brought in line with it where it can be. Only where there is no key file a key is drawn; it
    /// is kept once the public key's file is known not to hold another one.
    pub open spec fn stage_after(self, answer: Answer) -> KeyStage {
        match (self.stage, answer) {
            (KeyStage::Exists, Answer::Present) => KeyStage::Open,
            (KeyStage::Exists, _) => KeyStage::Sleep,
            (KeyStage::Sleep, _) => KeyStage::Open,
            (KeyStage::Open, Answer::Done) => if self.unix {
                KeyStage::Settle(Permissions::Inspect { newly_created: false })
            } else {
                KeyStage::Read
            },
            (KeyStage::Open, Answer::NotFound) => KeyStage::CheckPublic(checking(PUBLIC_KEY_PATH)),
            (KeyStage::Open, _) => KeyStage::Failed(KeyError::Open),
            (KeyStage::Settle(permissions), _) => KeyStage::from_permissions(
                permissions.after(answer),
            ),
            (KeyStage::Read, Answer::Text(contents)) => if secret_key_of(contents) is Some {
                KeyStage::WritePublic(writing(PUBLIC_KEY_PATH, false, self.unix))
            } else {
                KeyStage::Failed(KeyError::Malformed)
            },
            (KeyStage::Read, _) => KeyStage::Failed(KeyError::Read),
            (KeyStage::CheckPublic(check), _) => KeyStage::from_check(
                check.after(answer, self.public_key()),
                self.unix,
            ),
            (KeyStage::CreatePrivate(create), _) => KeyStage::from_create(
                create.after(answer),
                self.unix,
            ),
            (KeyStage::WritePublic(write), _) => KeyStage::from_write(
                write.after(answer, self.public_key()),
            ),
            (done, _) => done,
        }
    }

    /// The state after an answer, where `drawn` is the key that is drawn if one is.
    pub open spec fn after(self, answer: Answer, drawn: Seq<u8>) -> KeyState {
        KeyState {
            stage: self.stage_after(answer),
            key: self.key_after(answer, drawn),
            fault: self.fault_after(answer),
            ..self
        }
    }
}

/// Getting the server's key, before the first request.
pub open spec fn starting(wait: u64, unix: bool) -> KeyState {
    KeyState {
        wait,
        unix,
        stage: if wait > 0 {
            KeyStage::Exists
        } else {
            KeyStage::Open
        },
        key: None,
        fault: None,
    }
}

/// Starts to get the server's key. A key file that does not exist is given `wait` milliseconds to
/// appear. `unix` tells whether files have a mode.
pub fn gen_sk(wait: u64, unix: bool) -> (r: GenSk)
    ensures
        r@ == starting(wait, unix),
        r@.wf(),
{
    let stage: KeyStage = if wait > 0 {
        KeyStage::Exists
    } else {
        KeyStage::Open
    };
    GenSk { wait, unix, stage, key: None, public_key: String::new(), fault: None }
}

impl GenSk {
    #[verifier::type_invariant]
    spec fn well_formed(self) -> bool {
        &&& self@.wf()
        &&& self.key is Some ==> self.public_key@ == public_key_text(self.key->0@)
    }

    /// What is asked for in this state; nothing, once the end is reached.
    pub fn action(&self) -> (r: Option<Action>)
        ensures
            r == self@.request(),
    {
        match &self.stage {
            KeyStage::Exists => Some(Action::Exists(PRIVATE_KEY_PATH)),
            KeyStage::Sleep => Some(Action::Sleep(self.wait)),
            KeyStage::Open => Some(Action::Open(PRIVATE_KEY_PATH)),
            KeyStage::Settle(permissions) => permissions.action(),
            KeyStage::Read => Some(Action::ReadKey),
            KeyStage::CheckPublic(check) => check.action(),
            KeyStage::CreatePrivate(create) => create.action(),
            KeyStage::WritePublic(write) => write.action(),
            _ => None,
        }
    }

    /// How far the key is.
    pub fn stage(&self) -> (r: KeyStage)
        ensures
            r == self@.stage,
    {
        self.stage
    }

    /// The text that `Action::WriteKey` writes.
    pub fn key_text(&self) -> (r: Option<String>)
        ensures
            r is Some <==> self@.key is Some,
            r is Some ==> r->0@ == base64_text(self@.key->0),
    {
        match &self.key {
            Some(key) => Some(key.text()),
            None => None,
        }
    }

    /// The text that `Action::WriteTemporary` writes.
    pub fn public_key(&self) -> (r: Option<String>)
        ensures
            r is Some <==> self@.key is Some,
            r is Some ==> r->0@ == self@.public_key(),
    {
        proof {
            use_type_invariant(self);
        }
        match &self.key {
            Some(key) => Some(self.public_key.clone()),
            None => None,
        }
    }

    /// What is wrong with the base64 text of the key file, where something is.
    pub fn fault(&self) -> (r: Option<String>)
        ensures
            match r {
                Some(fault) => self@.fault == Some(fault@),
                None => self@.fault is None,
            },
    {
        match &self.fault {
            Some(fault) => Some(fault.clone()),
            None => None,
        }
    }

    /// Takes the answer to what was asked for. Where that is that there is no key file, a key is
    /// drawn; which one comes is left to chance. After any other answer it makes no difference which
    /// key would be drawn.
    pub fn step(self, event: Event) -> (r: GenSk)
        ensures
            self@.draws(event@) ==> r@.key is Some && is_kept_drawing(r@.key->0) && r@ == self@.after(
                event@,
                r@.key->0,
            ),
            !self@.draws(event@) ==> r@ == self@.after(event@, Seq::empty()),
            r@.wf(),
    {
        match (&self.stage, &event) {
            (KeyStage::Open, Event::NotFound) => {
                let (_, key) = generate_key_pair();
                self.step_with(event, key)
            },
            _ => self.go_on(event),
        }
    }

    /// Takes the answer to what was asked for, where `drawn` is the key that is drawn if one is.
    pub fn step_with(self, event: Event, drawn: SecretKey) -> (r: GenSk)
        ensures
            r@ == self@.after(event@, drawn@),
            r@.wf(),
    {
        match (&self.stage, &event) {
            (KeyStage::Open, Event::NotFound) => {
                let public_key: String = drawn.public_key();
                let stage: KeyStage = KeyStage::CheckPublic(
                    missing_public_key_path(PUBLIC_KEY_PATH),
                );
                let GenSk { wait, unix, fault, .. } = self;
                GenSk { wait, unix, stage, key: Some(drawn), public_key, fault }
            },
            _ => self.go_on(event),
        }
    }

    /// Takes an answer after which no key is drawn.
    fn go_on(self, event: Event) -> (r: GenSk)
        requires
            !self@.draws(event@),
        ensures
            r@ == self@.after(event@, Seq::empty()),
            r@.wf(),
    {
        proof {
            use_type_invariant(&self);
        }
        let GenSk { wait, unix, stage, key, public_key, fault } = self;
        match stage {
            KeyStage::Read => match event {
                Event::Text(contents) => match parse_secret_key(contents.as_str()) {
                    Ok(key) => {
                        let public_key: String = key.public_key();
                        let write: PublicKeyWrite = write_public_key(PUBLIC_KEY_PATH, false, unix);
                        let stage: KeyStage = KeyStage::WritePublic(write);
                        GenSk { wait, unix, stage, key: Some(key), public_key, fault: None }
                    },
                    Err(fault) => {
                        let stage: KeyStage = KeyStage::Failed(KeyError::Malformed);
                        GenSk { wait, unix, stage, key: None, public_key, fault }
                    },
                },
                _ => {
                    let stage: KeyStage = KeyStage::Failed(KeyError::Read);
                    GenSk { wait, unix, stage, key, public_key, fault }
                },
            },
            stage => {
                let stage: KeyStage = match stage {
                    KeyStage::Exists => match event {
                        Event::Present => KeyStage::Open,
                        _ => KeyStage::Sleep,
                    },
                    KeyStage::Sleep => KeyStage::Open,
                    KeyStage::Open => match event {
                        Event::Done => if unix {
                            KeyStage::Settle(set_private_key_permissions(false))
                        } else {
                            KeyStage::Read
                        },
                        _ => KeyStage::Failed(KeyError::Open),
                    },
                    KeyStage::Settle(permissions) => KeyStage::permissions(
                        permissions.step(&event),
                    ),
                    KeyStage::CheckPublic(check) => KeyStage::check(
                        check.step(&event, &public_key),
                        unix,
                    ),
                    KeyStage::CreatePrivate(create) => KeyStage::create(create.step(&event), unix),
                    KeyStage::WritePublic(write) => KeyStage::write(
                        write.step(&event, &public_key),
                    ),
                    done => done,
                };
                GenSk { wait, unix, stage, key, public_key, fault }
            },
        }
    }

    /// The public key's text and the key, or why there is none; nothing, before the end is reached.
    pub fn outcome(self) -> (r: Option<Result<(String, SecretKey), KeyError>>)
        ensures
            match self@.stage {
                KeyStage::Ready => r is Some && r->0 is Ok && r->0->Ok_0.1@ == self@.key->0
                    && r->0->Ok_0.0@ == self@.public_key(),
                KeyStage::Failed(error) => r is Some && r->0 == Err::<
                    (String, SecretKey),
                    KeyError,
                >(error),
                _ => r is None,
            },
    {
        proof {
            use_type_invariant(&self);
        }
        match self.stage {
            KeyStage::Ready => match self.key {
                Some(key) => Some(Ok((self.public_key, key))),
                None => None,
            },
            KeyStage::Failed(error) => Some(Err(error)),
            _ => None,
        }
    }
}

/// Whatever the answers, each of them brings the end nearer.
pub proof fn getting_a_key_is_bounded(state: KeyState, answer: Answer, drawn: Seq<u8>)
    requires
        state.wf(),
        drawn.len() == SECRET_KEY_BYTES,
        state.request() is Some,
    ensures
        state.after(answer, drawn).wf(),
        state.after(answer, drawn).stage.rank() < state.stage.rank(),
        state.stage.rank() <= 900,
{
    match state.stage {
        KeyStage::Settle(permissions) => {
            settling_is_bounded(permissions, answer);
        },
        KeyStage::CheckPublic(check) => {
            checking_is_bounded(check, answer, state.public_key());
        },
        KeyStage::CreatePrivate(create) => {
            creating_is_bounded(create, answer);
        },
        KeyStage::WritePublic(write) => {
            writing_is_bounded(write, answer, state.public_key());
        },
        _ => {},
    }
}

}
