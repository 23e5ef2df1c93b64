//! The names of temporary files.

use vstd::prelude::*;

verus! {

/// Whether `c` is a digit in base 16, with small letters.
pub open spec fn is_hex_digit(c: char) -> bool {
    ('0' <= c <= '9') || ('a' <= c <= 'f')
}

/// Whether `id` is the text of a random UUID: 32 digits in base 16 in five groups, with dashes
/// between them, of which the third begins with 4.
pub open spec fn is_uuid(id: Seq<char>) -> bool {
    &&& id.len() == 36
    &&& forall|i: int|
        0 <= i < 36 ==> if i == 8 || i == 13 || i == 18 || i == 23 {
            #[trigger] id[i] == '-'
        } else {
            is_hex_digit(id[i])
        }
    &&& id[14] == '4'
}

/// `Uuid::new_v4` of uuid draws a random UUID, and its `Display` writes it with dashes and small
/// letters. Nothing more is said: which one comes is left to chance.
#[verifier::external_body]
fn new_uuid() -> (r: String)
    ensures
        is_uuid(r@),
{
    uuid::Uuid::new_v4().to_string()
}

/// Whether `id` is the text of a UUID that `Uuid::new_v4` gave.
pub closed spec fn was_drawn_id(id: Seq<char>) -> bool {
    exists|text: String|
        #![trigger call_ensures(new_uuid, (), text)]
        call_ensures(new_uuid, (), text) && text@ == id
}

/// The name of the temporary file that has the number `id`.
pub open spec fn temporary(id: Seq<char>) -> Seq<char> {
    ".id_ed25519.pub."@ + id
}

/// The name of the temporary file that has the number `id`, for what becomes the public key's file.
pub fn temporary_name(id: &str) -> (r: String)
    ensures
        r@ == temporary(id@),
{
    String::from_str(".id_ed25519.pub.").concat(id)
}

/// A name for a new temporary file, with a number that is drawn for it. Which number comes is left
/// to chance.
pub fn new_temporary_name() -> (r: String)
    ensures
        exists|id: Seq<char>|
            is_uuid(id) && was_drawn_id(id) && r@ == #[trigger] temporary(id),
{
    let id: String = new_uuid();
    assert(call_ensures(new_uuid, (), id));
    assert(was_drawn_id(id@));
    temporary_name(id.as_str())
}

/// The name of a temporary file is no path that leads elsewhere, is neither the key file's nor the
/// public key's, and differs from that of every temporary file with another number.
pub proof fn temporary_name_is_its_own(id: Seq<char>, other: Seq<char>)
    requires
        is_uuid(id),
    ensures
        !temporary(id).contains('/'),
        !temporary(id).contains('\\'),
        temporary(id) != "id_ed25519"@,
        temporary(id) != "id_ed25519.pub"@,
        temporary(id) == temporary(other) ==> id == other,
{
    reveal_strlit(".id_ed25519.pub.");
    reveal_strlit("id_ed25519");
    reveal_strlit("id_ed25519.pub");
    let name = temporary(id);
    assert(name.len() == 52);
    assert forall|i: int| 0 <= i < name.len() implies name[i] != '/' && name[i] != '\\' by {
        if i >= 16 {
            assert(name[i] == id[i - 16]);
        }
    }
    if name == temporary(other) {
        assert(id =~= name.skip(16));
        assert(other =~= temporary(other).skip(16));
    }
}

/// The name of a temporary file is hidden, tells what the file is for, and ends in its number.
pub proof fn temporary_name_ends_in_its_number(id: &str, r: String)
    requires
        call_ensures(temporary_name, (id,), r),
    ensures
        r@.len() == 16 + id@.len(),
        r@.take(16) == ".id_ed25519.pub."@,
        r@.skip(16) == id@,
{
    reveal_strlit(".id_ed25519.pub.");
    assert(r@.take(16) =~= ".id_ed25519.pub."@);
    assert(r@.skip(16) =~= id@);
}

/// Each new temporary file has a name with a number that was drawn.
pub proof fn new_temporary_name_is_drawn(r: String)
    requires
        call_ensures(new_temporary_name, (), r),
    ensures
        r@.len() == 52,
        r@.take(16) == ".id_ed25519.pub."@,
        is_uuid(r@.skip(16)),
        was_drawn_id(r@.skip(16)),
{
    reveal_strlit(".id_ed25519.pub.");
    let id = choose|id: Seq<char>|
        is_uuid(id) && was_drawn_id(id) && r@ == #[trigger] temporary(id);
    assert(r@.take(16) =~= ".id_ed25519.pub."@);
    assert(r@.skip(16) =~= id);
}

}
