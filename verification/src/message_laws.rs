//! What is told of failures.

use vstd::prelude::*;

use crate::gen_sk::KeyError;
use crate::key_files::PathId;
use crate::key_messages::{in_one_line, octal, octal_digits, tell, write_octal};
use crate::key_path::ResolveError;
use crate::key_permissions::PermissionError;
use crate::private_key::{NewFileError, PrivateKeyError};
use crate::public_key::PublicKeyError;
use crate::text::texts;

verus! {

/// The number that octal digits make.
pub open spec fn octal_value(text: Seq<char>) -> int
    decreases text.len(),
{
    if text.len() == 0 {
        0
    } else {
        octal_value(text.drop_last()) * 8 + (text.last() as int - 48)
    }
}

proof fn lemma_octal_digits(n: int)
    requires
        n >= 0,
    ensures
        octal_value(octal_digits(n)) == n,
        octal_digits(n).len() > 0,
        n > 0 ==> octal_digits(n)[0] != '0',
        forall|i: int|
            0 <= i < octal_digits(n).len() ==> '0' <= #[trigger] octal_digits(n)[i] <= '7',
        octal_digits(n).len() > 1 ==> n >= 8,
    decreases n,
{
    reveal_with_fuel(octal_value, 2);
    if n >= 8 {
        lemma_octal_digits(n / 8);
        let before = octal_digits(n / 8);
        assert(before.push((n % 8 + 48) as char).drop_last() =~= before);
    } else {
        assert(octal_digits(n).drop_last() =~= Seq::<char>::empty());
    }
}

proof fn lemma_zeros_in_front(zeros: nat, digits: Seq<char>)
    ensures
        octal_value(Seq::new(zeros, |i: int| '0') + digits) == octal_value(digits),
    decreases digits.len(), zeros,
{
    let front = Seq::new(zeros, |i: int| '0');
    if digits.len() > 0 {
        assert((front + digits).drop_last() =~= front + digits.drop_last());
        lemma_zeros_in_front(zeros, digits.drop_last());
    } else if zeros > 0 {
        let fewer = (zeros - 1) as nat;
        assert((front + digits).drop_last() =~= Seq::new(fewer, |i: int| '0') + digits);
        lemma_zeros_in_front(fewer, digits);
    } else {
        assert(front + digits =~= digits);
    }
}

/// Permissions are written as octal digits that make their number: four of them, or more where it
/// takes more.
pub proof fn permissions_are_written_in_octal(permissions: u32, r: String)
    requires
        call_ensures(write_octal, (permissions,), r),
    ensures
        octal_value(r@) == permissions,
        r@.len() >= 4,
        r@.len() > 4 ==> r@[0] != '0',
        forall|i: int| 0 <= i < r@.len() ==> '0' <= #[trigger] r@[i] <= '7',
{
    let digits = octal_digits(permissions as int);
    lemma_octal_digits(permissions as int);
    if digits.len() < 4 {
        lemma_zeros_in_front((4 - digits.len()) as nat, digits);
    }
}

/// Nothing is told of an empty story but its reason, and of one line nothing but that.
pub proof fn short_stories_are_told_as_they_are(
    story: &Vec<String>,
    reason: &str,
    alone: String,
    with: String,
)
    requires
        call_ensures(tell, (story, None), alone),
        call_ensures(tell, (story, Some(reason)), with),
    ensures
        story@.len() == 0 ==> alone@.len() == 0 && with@ == reason@,
        story@.len() == 1 ==> alone@ == story@[0]@,
        story@.len() > 0 ==> with@ == alone@ + ": "@ + reason@,
{
    let lines = texts(story@);
    assert(lines.push(reason@).drop_last() =~= lines);
}

/// Each further line of a story is told after those before it, with a colon between.
pub proof fn lines_are_told_one_after_the_other(
    story: &Vec<String>,
    longer: &Vec<String>,
    line: String,
    a: String,
    b: String,
)
    requires
        story@.len() > 0,
        longer@ == story@.push(line),
        call_ensures(tell, (story, None), a),
        call_ensures(tell, (longer, None), b),
    ensures
        b@ == a@ + ": "@ + line@,
{
    assert(texts(longer@).drop_last() =~= texts(story@));
    assert(texts(longer@).last() == line@);
}

/// What is told of a path that was not resolved.
pub proof fn unresolved_path_is_told(error: &ResolveError, path: &str, r: Vec<String>)
    requires
        call_ensures(ResolveError::story, (error, path), r),
    ensures
        match *error {
            ResolveError::TooManySymlinks(_) => texts(r@) == seq![
                "Too many key symlinks (limit: 40): "@ + path@,
            ],
            ResolveError::Inspect(_) | ResolveError::ReadLink(_) => texts(r@).len() == 0,
        },
{
}

/// What is told of permissions that were not settled.
pub proof fn unsettled_permissions_are_told(
    error: &PermissionError,
    shown: String,
    r: Vec<String>,
)
    requires
        call_ensures(PermissionError::story, (error,), r),
        match *error {
            PermissionError::UnsafeInitial(mode) | PermissionError::Unexpected(mode) =>
                call_ensures(write_octal, (mode,), shown),
            _ => true,
        },
    ensures
        match *error {
            PermissionError::Read => texts(r@).len() == 0,
            PermissionError::UnsafeInitial(_) => texts(r@) == seq![
                "Unsafe initial private key permissions: "@ + shown@,
            ],
            PermissionError::Restrict => texts(r@) == seq![
                "Failed to set private key permissions to 0600"@,
            ],
            PermissionError::Unexpected(_) => texts(r@) == seq![
                "Private key permissions are "@ + shown@ + ", expected 0600"@,
            ],
        },
{
}

/// What is told of a key file that was not created.
pub proof fn uncreated_key_file_is_told(
    error: &PrivateKeyError,
    path: &str,
    earlier: &str,
    r: Vec<String>,
    search: Vec<String>,
    file: Vec<String>,
    permissions: Vec<String>,
)
    requires
        call_ensures(PrivateKeyError::story, (error, path, earlier), r),
        match *error {
            PrivateKeyError::Resolve(cause) => call_ensures(
                ResolveError::story,
                (&cause, path),
                search,
            ),
            PrivateKeyError::NewFile(cause) => {
                &&& call_ensures(NewFileError::story, (&cause,), file)
                &&& match cause {
                    NewFileError::Permissions(why) => call_ensures(
                        PermissionError::story,
                        (&why,),
                        permissions,
                    ),
                    NewFileError::Write => true,
                }
            },
            _ => true,
        },
    ensures
        match *error {
            PrivateKeyError::Resolve(_) => texts(r@) == texts(search@),
            PrivateKeyError::Create(_) => texts(r@).len() == 0,
            PrivateKeyError::NewFile(NewFileError::Permissions(_)) => texts(r@) == texts(
                permissions@,
            ) && texts(file@) == texts(permissions@),
            PrivateKeyError::NewFile(NewFileError::Write) => texts(r@) == seq![
                "Failed to write private key"@,
            ] && texts(file@) == texts(r@),
            PrivateKeyError::Remove(_, _) => texts(r@) == seq![
                "Failed to remove "@ + path@ + " after "@ + earlier@,
            ],
        },
{
}

/// What is told of a public key's file that was not brought in line.
pub proof fn public_key_failure_is_told(
    error: &PublicKeyError,
    path: &str,
    r: Vec<String>,
    search: Vec<String>,
)
    requires
        call_ensures(PublicKeyError::story, (error, path), r),
        match *error {
            PublicKeyError::Resolve(cause) => call_ensures(
                ResolveError::story,
                (&cause, path),
                search,
            ),
            _ => true,
        },
    ensures
        match *error {
            PublicKeyError::Resolve(_) => texts(r@) == seq!["Failed to resolve public key path"@]
                + texts(search@),
            PublicKeyError::Read(_) => texts(r@) == seq!["Failed to read public key file"@],
            PublicKeyError::Mismatch(_) => texts(r@) == seq![
                "Public key in "@ + path@ + " does not match private key in id_ed25519"@,
            ],
            PublicKeyError::CreateTemporary => texts(r@) == seq![
                "Failed to create public key file"@,
            ],
            PublicKeyError::ReadTemporaryMode => texts(r@).len() == 0,
            PublicKeyError::SetTemporaryMode => texts(r@) == seq![
                "Failed to set public key owner permissions"@,
            ],
            PublicKeyError::WriteTemporary => texts(r@) == seq!["Failed to write public key"@],
            PublicKeyError::SyncTemporary => texts(r@) == seq!["Failed to sync public key"@],
            PublicKeyError::Publish => texts(r@) == seq!["Failed to publish public key file"@],
            PublicKeyError::Disappeared => texts(r@) == seq![
                "Public key disappeared during publication"@,
            ],
        },
{
}

/// What is told where there is no key: what its part tells, after what was to be done.
pub proof fn missing_key_is_told(
    error: &KeyError,
    path: &str,
    earlier: &str,
    r: Vec<String>,
    part: Vec<String>,
)
    requires
        call_ensures(KeyError::story, (error, path, earlier), r),
        match *error {
            KeyError::Permissions(cause) => call_ensures(PermissionError::story, (&cause,), part),
            KeyError::PublicKey(cause) => call_ensures(PublicKeyError::story, (&cause, path), part),
            KeyError::Create(cause) => call_ensures(
                PrivateKeyError::story,
                (&cause, path, earlier),
                part,
            ),
            _ => true,
        },
    ensures
        match *error {
            KeyError::Open => texts(r@) == seq!["Failed to open private key"@],
            KeyError::Permissions(_) => texts(r@) == texts(part@),
            KeyError::Read => texts(r@) == seq!["Failed to read private key"@],
            KeyError::Malformed => texts(r@) == seq!["Malformed private key"@],
            KeyError::PublicKey(_) => texts(r@) == texts(part@),
            KeyError::Create(_) => texts(r@) == seq!["Failed to create private key file"@] + texts(
                part@,
            ),
        },
{
}

/// The path that is shown is that of the links that are too many, of the file that holds another key
/// or of the file that could not be removed. No other error shows one.
pub proof fn shown_path_is_that_of_the_error(error: &KeyError, path: PathId, r: Option<PathId>)
    requires
        call_ensures(KeyError::path, (error,), r),
    ensures
        r == Some(path) <==> {
            let links = ResolveError::TooManySymlinks(path);
            ||| *error == KeyError::PublicKey(PublicKeyError::Resolve(links))
            ||| *error == KeyError::PublicKey(PublicKeyError::Mismatch(path))
            ||| *error == KeyError::Create(PrivateKeyError::Resolve(links))
            ||| *error matches KeyError::Create(PrivateKeyError::Remove(at, _)) && at == path
        },
{
}

/// The file system gave no reason for a file that is malformed or holds another key, for links that
/// are too many, for permissions that are wrong and for a file that disappeared; for all else it did.
pub proof fn reason_comes_from_the_file_system(
    error: &KeyError,
    r: bool,
    file: &NewFileError,
    of_file: bool,
)
    requires
        call_ensures(KeyError::has_reason, (error,), r),
        call_ensures(NewFileError::has_reason, (file,), of_file),
    ensures
        !of_file <==> *file is Permissions && (file->Permissions_0 is UnsafeInitial
            || file->Permissions_0 is Unexpected),
        !r <==> match *error {
            KeyError::Open | KeyError::Read => false,
            KeyError::Malformed => true,
            KeyError::Permissions(cause) => cause is UnsafeInitial || cause is Unexpected,
            KeyError::PublicKey(PublicKeyError::Resolve(cause)) => cause is TooManySymlinks,
            KeyError::PublicKey(cause) => cause is Mismatch || cause is Disappeared,
            KeyError::Create(PrivateKeyError::Resolve(cause)) => cause is TooManySymlinks,
            KeyError::Create(PrivateKeyError::NewFile(NewFileError::Permissions(cause))) => cause
                is UnsafeInitial || cause is Unexpected,
            KeyError::Create(_) => false,
        },
{
}

}
