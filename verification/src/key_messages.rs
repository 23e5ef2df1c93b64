//! What is told of a key procedure that failed.
//!
//! A story is a list of lines. The first says what was not done; each later one says why the one
//! before it. The reason that the file system gave, where it gave one, comes after the last.

use vstd::prelude::*;

use crate::gen_sk::KeyError;
use crate::key_files::PathId;
use crate::key_path::ResolveError;
use crate::key_permissions::PermissionError;
use crate::private_key::{NewFileError, PrivateKeyError};
use crate::public_key::PublicKeyError;
use crate::text::texts;

verus! {

/// The digits of `n` in base 8.
pub open spec fn octal_digits(n: int) -> Seq<char>
    decreases n,
{
    if n < 8 {
        seq![(n + 48) as char]
    } else {
        octal_digits(n / 8).push((n % 8 + 48) as char)
    }
}

/// Permissions as they are written: in base 8, with four digits at least.
pub open spec fn octal(permissions: u32) -> Seq<char> {
    let digits = octal_digits(permissions as int);
    if digits.len() < 4 {
        Seq::new((4 - digits.len()) as nat, |i: int| '0') + digits
    } else {
        digits
    }
}

fn write_octal_digits(n: u32) -> (r: String)
    ensures
        r@ == octal_digits(n as int),
        r@.len() > 0,
    decreases n,
{
    let digit: char = match n % 8 {
        0 => '0',
        1 => '1',
        2 => '2',
        3 => '3',
        4 => '4',
        5 => '5',
        6 => '6',
        _ => '7',
    };
    let mut out: String = if n < 8 {
        String::new()
    } else {
        write_octal_digits(n / 8)
    };
    out.push(digit);
    assert(n < 8 ==> out@ =~= octal_digits(n as int));
    assert(n >= 8 ==> out@ =~= octal_digits(n as int));
    out
}

/// Writes permissions.
pub fn write_octal(permissions: u32) -> (r: String)
    ensures
        r@ == octal(permissions),
{
    let digits: String = write_octal_digits(permissions);
    let mut out: String = String::new();
    let count: usize = digits.as_str().unicode_len();
    let mut i: usize = count;
    while i < 4
        invariant
            count <= i,
            i <= 4 || i == count,
            out@ == Seq::new((i - count) as nat, |j: int| '0'),
        decreases 4 - i,
    {
        out.push('0');
        i += 1;
        assert(out@ =~= Seq::new((i - count) as nat, |j: int| '0'));
    }
    let r: String = out.concat(digits.as_str());
    assert(r@ =~= octal(permissions));
    r
}

/// The story of one line.
fn one(line: &str) -> (r: Vec<String>)
    ensures
        texts(r@) == seq![line@],
{
    let mut story: Vec<String> = Vec::new();
    story.push(String::from_str(line));
    assert(texts(story@) =~= seq![line@]);
    story
}

/// The story that has no line of its own.
fn none() -> (r: Vec<String>)
    ensures
        texts(r@) == Seq::<Seq<char>>::empty(),
{
    let story: Vec<String> = Vec::new();
    assert(texts(story@) =~= Seq::<Seq<char>>::empty());
    story
}

/// The story of one line made of three parts.
fn joined(a: &str, b: &str, c: &str) -> (r: Vec<String>)
    ensures
        texts(r@) == seq![a@ + b@ + c@],
{
    one(String::from_str(a).concat(b).concat(c).as_str())
}

/// The story with one more line before it.
fn after_line(line: &str, rest: Vec<String>) -> (r: Vec<String>)
    ensures
        texts(r@) == seq![line@] + texts(rest@),
{
    let mut story: Vec<String> = one(line);
    let mut rest: Vec<String> = rest;
    let ghost before = rest@;
    story.append(&mut rest);
    assert(texts(story@) =~= seq![line@] + texts(before));
    story
}

impl ResolveError {
    /// What is told; `path` is how the path of the error is written.
    pub open spec fn told(self, path: Seq<char>) -> Seq<Seq<char>> {
        match self {
            ResolveError::TooManySymlinks(_) => seq!["Too many key symlinks (limit: 40): "@ + path],
            _ => Seq::empty(),
        }
    }

    /// What is told; `path` is how the path of the error is written.
    pub fn story(&self, path: &str) -> (r: Vec<String>)
        ensures
            texts(r@) == self.told(path@),
    {
        match self {
            ResolveError::TooManySymlinks(_) => {
                one(String::from_str("Too many key symlinks (limit: 40): ").concat(path).as_str())
            },
            _ => none(),
        }
    }
}

impl PermissionError {
    /// What is told.
    pub open spec fn told(self) -> Seq<Seq<char>> {
        match self {
            PermissionError::Read => Seq::empty(),
            PermissionError::UnsafeInitial(mode) => seq![
                "Unsafe initial private key permissions: "@ + octal(mode),
            ],
            PermissionError::Restrict => seq!["Failed to set private key permissions to 0600"@],
            PermissionError::Unexpected(mode) => seq![
                "Private key permissions are "@ + octal(mode) + ", expected 0600"@,
            ],
        }
    }

    /// What is told.
    pub fn story(&self) -> (r: Vec<String>)
        ensures
            texts(r@) == self.told(),
    {
        match self {
            PermissionError::Read => none(),
            PermissionError::UnsafeInitial(mode) => {
                let shown: String = write_octal(*mode);
                one(
                    String::from_str("Unsafe initial private key permissions: ").concat(
                        shown.as_str(),
                    ).as_str(),
                )
            },
            PermissionError::Restrict => one("Failed to set private key permissions to 0600"),
            PermissionError::Unexpected(mode) => {
                let shown: String = write_octal(*mode);
                joined("Private key permissions are ", shown.as_str(), ", expected 0600")
            },
        }
    }
}

impl NewFileError {
    /// What is told.
    pub open spec fn told(self) -> Seq<Seq<char>> {
        match self {
            NewFileError::Permissions(error) => error.told(),
            NewFileError::Write => seq!["Failed to write private key"@],
        }
    }

    /// What is told.
    pub fn story(&self) -> (r: Vec<String>)
        ensures
            texts(r@) == self.told(),
    {
        match self {
            NewFileError::Permissions(error) => error.story(),
            NewFileError::Write => one("Failed to write private key"),
        }
    }
}

impl PrivateKeyError {
    /// What is told; `earlier` is the story of what led to the removal of a new file.
    pub open spec fn told(self, path: Seq<char>, earlier: Seq<char>) -> Seq<Seq<char>> {
        match self {
            PrivateKeyError::Resolve(error) => error.told(path),
            PrivateKeyError::Create(_) => Seq::empty(),
            PrivateKeyError::NewFile(error) => error.told(),
            PrivateKeyError::Remove(_, _) => seq![
                "Failed to remove "@ + path + " after "@ + earlier,
            ],
        }
    }

    /// What is told; `earlier` is the story of what led to the removal of a new file.
    pub fn story(&self, path: &str, earlier: &str) -> (r: Vec<String>)
        ensures
            texts(r@) == self.told(path@, earlier@),
    {
        match self {
            PrivateKeyError::Resolve(error) => error.story(path),
            PrivateKeyError::Create(_) => none(),
            PrivateKeyError::NewFile(error) => error.story(),
            PrivateKeyError::Remove(_, _) => {
                let place: String = String::from_str("Failed to remove ").concat(path);
                joined(place.as_str(), " after ", earlier)
            },
        }
    }
}

impl PublicKeyError {
    /// What is told; `path` is how the path of the error is written.
    pub open spec fn told(self, path: Seq<char>) -> Seq<Seq<char>> {
        match self {
            PublicKeyError::Resolve(error) => seq!["Failed to resolve public key path"@]
                + error.told(path),
            PublicKeyError::Read(_) => seq!["Failed to read public key file"@],
            PublicKeyError::Mismatch(_) => seq![
                "Public key in "@ + path + " does not match private key in id_ed25519"@,
            ],
            PublicKeyError::CreateTemporary => seq!["Failed to create public key file"@],
            PublicKeyError::ReadTemporaryMode => Seq::empty(),
            PublicKeyError::SetTemporaryMode => seq!["Failed to set public key owner permissions"@],
            PublicKeyError::WriteTemporary => seq!["Failed to write public key"@],
            PublicKeyError::SyncTemporary => seq!["Failed to sync public key"@],
            PublicKeyError::Publish => seq!["Failed to publish public key file"@],
            PublicKeyError::Disappeared => seq!["Public key disappeared during publication"@],
        }
    }

    /// What is told; `path` is how the path of the error is written.
    pub fn story(&self, path: &str) -> (r: Vec<String>)
        ensures
            texts(r@) == self.told(path@),
    {
        match self {
            PublicKeyError::Resolve(error) => after_line(
                "Failed to resolve public key path",
                error.story(path),
            ),
            PublicKeyError::Read(_) => one("Failed to read public key file"),
            PublicKeyError::Mismatch(_) => joined(
                "Public key in ",
                path,
                " does not match private key in id_ed25519",
            ),
            PublicKeyError::CreateTemporary => one("Failed to create public key file"),
            PublicKeyError::ReadTemporaryMode => none(),
            PublicKeyError::SetTemporaryMode => one("Failed to set public key owner permissions"),
            PublicKeyError::WriteTemporary => one("Failed to write public key"),
            PublicKeyError::SyncTemporary => one("Failed to sync public key"),
            PublicKeyError::Publish => one("Failed to publish public key file"),
            PublicKeyError::Disappeared => one("Public key disappeared during publication"),
        }
    }
}

impl KeyError {
    /// What is told; `path` is how the path of the error is written, and `earlier` is the story of
    /// what led to the removal of a new file.
    pub open spec fn told(self, path: Seq<char>, earlier: Seq<char>) -> Seq<Seq<char>> {
        match self {
            KeyError::Open => seq!["Failed to open private key"@],
            KeyError::Permissions(error) => error.told(),
            KeyError::Read => seq!["Failed to read private key"@],
            KeyError::Malformed => seq!["Malformed private key"@],
            KeyError::PublicKey(error) => error.told(path),
            KeyError::Create(error) => seq!["Failed to create private key file"@] + error.told(
                path,
                earlier,
            ),
        }
    }

    /// What is told; `path` is how the path of the error is written, and `earlier` is the story of
    /// what led to the removal of a new file.
    pub fn story(&self, path: &str, earlier: &str) -> (r: Vec<String>)
        ensures
            texts(r@) == self.told(path@, earlier@),
    {
        match self {
            KeyError::Open => one("Failed to open private key"),
            KeyError::Permissions(error) => error.story(),
            KeyError::Read => one("Failed to read private key"),
            KeyError::Malformed => one("Malformed private key"),
            KeyError::PublicKey(error) => error.story(path),
            KeyError::Create(error) => after_line(
                "Failed to create private key file",
                error.story(path, earlier),
            ),
        }
    }

    /// The path that the story shows.
    pub open spec fn shown_path(self) -> Option<PathId> {
        match self {
            KeyError::PublicKey(PublicKeyError::Resolve(ResolveError::TooManySymlinks(path)))
            | KeyError::PublicKey(PublicKeyError::Mismatch(path))
            | KeyError::Create(PrivateKeyError::Resolve(ResolveError::TooManySymlinks(path)))
            | KeyError::Create(PrivateKeyError::Remove(path, _)) => Some(path),
            _ => None,
        }
    }

    /// The path that the story shows.
    pub fn path(&self) -> (r: Option<PathId>)
        ensures
            r == self.shown_path(),
    {
        match *self {
            KeyError::PublicKey(PublicKeyError::Resolve(ResolveError::TooManySymlinks(path)))
            | KeyError::PublicKey(PublicKeyError::Mismatch(path))
            | KeyError::Create(PrivateKeyError::Resolve(ResolveError::TooManySymlinks(path)))
            | KeyError::Create(PrivateKeyError::Remove(path, _)) => Some(path),
            _ => None,
        }
    }
}

/// Lines one after the other, with a colon and a space between them.
pub open spec fn in_one_line(lines: Seq<Seq<char>>) -> Seq<char>
    decreases lines.len(),
{
    if lines.len() == 0 {
        Seq::empty()
    } else if lines.len() == 1 {
        lines[0]
    } else {
        in_one_line(lines.drop_last()) + ": "@ + lines.last()
    }
}

/// The lines of a story one after the other, and after them the reason where there is one.
pub fn tell(story: &Vec<String>, reason: Option<&str>) -> (r: String)
    ensures
        r@ == in_one_line(
            match reason {
                Some(reason) => texts(story@).push(reason@),
                None => texts(story@),
            },
        ),
{
    let ghost lines = texts(story@);
    let mut out: String = String::new();
    let mut i: usize = 0;
    assert(lines.take(0) =~= Seq::<Seq<char>>::empty());
    while i < story.len()
        invariant
            i <= story.len(),
            lines == texts(story@),
            out@ == in_one_line(lines.take(i as int)),
        decreases story.len() - i,
    {
        assert(lines.take(i + 1).drop_last() =~= lines.take(i as int));
        if i > 0 {
            out = out.concat(": ");
        }
        out = out.concat(story[i].as_str());
        assert(i == 0 ==> out@ =~= lines.take(1)[0]);
        i += 1;
    }
    assert(lines.take(i as int) =~= lines);
    match reason {
        Some(reason) => {
            assert(lines.push(reason@).drop_last() =~= lines);
            if story.len() > 0 {
                out = out.concat(": ");
            }
            let r: String = out.concat(reason);
            assert(story.len() == 0 ==> r@ =~= reason@);
            r
        },
        None => out,
    }
}

impl ResolveError {
    /// Whether the file system gave a reason.
    pub open spec fn of_files(self) -> bool {
        !(self is TooManySymlinks)
    }
}

impl PermissionError {
    /// Whether the file system gave a reason.
    pub open spec fn of_files(self) -> bool {
        self is Read || self is Restrict
    }
}

impl NewFileError {
    /// Whether the file system gave a reason.
    pub open spec fn of_files(self) -> bool {
        match self {
            NewFileError::Permissions(error) => error.of_files(),
            NewFileError::Write => true,
        }
    }

    /// Whether the file system gave a reason.
    pub fn has_reason(&self) -> (r: bool)
        ensures
            r == self.of_files(),
    {
        match self {
            NewFileError::Permissions(PermissionError::UnsafeInitial(_))
            | NewFileError::Permissions(PermissionError::Unexpected(_)) => false,
            _ => true,
        }
    }
}

impl KeyError {
    /// Whether the file system gave a reason.
    pub open spec fn of_files(self) -> bool {
        match self {
            KeyError::Open | KeyError::Read => true,
            KeyError::Permissions(error) => error.of_files(),
            KeyError::Malformed => false,
            KeyError::PublicKey(PublicKeyError::Resolve(error)) => error.of_files(),
            KeyError::PublicKey(error) => !(error is Mismatch) && !(error is Disappeared),
            KeyError::Create(PrivateKeyError::Resolve(error)) => error.of_files(),
            KeyError::Create(PrivateKeyError::NewFile(error)) => error.of_files(),
            KeyError::Create(_) => true,
        }
    }

    /// Whether the file system gave a reason.
    pub fn has_reason(&self) -> (r: bool)
        ensures
            r == self.of_files(),
    {
        match self {
            KeyError::Permissions(PermissionError::UnsafeInitial(_))
            | KeyError::Permissions(PermissionError::Unexpected(_))
            | KeyError::Malformed
            | KeyError::PublicKey(PublicKeyError::Resolve(ResolveError::TooManySymlinks(_)))
            | KeyError::PublicKey(PublicKeyError::Mismatch(_))
            | KeyError::PublicKey(PublicKeyError::Disappeared)
            | KeyError::Create(PrivateKeyError::Resolve(ResolveError::TooManySymlinks(_))) => false,
            KeyError::Create(PrivateKeyError::NewFile(error)) => error.has_reason(),
            _ => true,
        }
    }
}

}
