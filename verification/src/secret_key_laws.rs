//! What holds of keys and of the texts in which they are kept.

use vstd::prelude::*;

use crate::base64_text::{
    base64_bytes, base64_round_trip, base64_text, base64_text_is_plain, decode_fault, padding,
    stands_for,
};
use crate::secret_key::{
    generate_key_pair, is_kept_drawing, keep_key, parse_secret_key, secret_key_of, was_drawn,
    SecretKey,
};
use crate::text::trimmed;
use crate::text_laws::{is_blank, is_tight, only_white_space_is_trimmed, trimmed_text_is_the_middle};

verus! {

/// A text that stands for bytes has no white space at its ends.
proof fn lemma_base64_is_tight(text: Seq<char>, bytes: Seq<u8>)
    requires
        stands_for(text, bytes),
    ensures
        is_tight(text),
{
    let m = choose|m: nat| m <= 2 && base64_text(bytes) == text + #[trigger] padding(m);
    base64_text_is_plain(bytes);
    if text.len() > 0 {
        assert(base64_text(bytes)[0] == text[0]);
        assert(base64_text(bytes)[text.len() - 1] == text[text.len() - 1]);
    }
}

/// The base64 text of bytes stands for them, and so does what is left of it without the padding at
/// its end.
proof fn lemma_base64_text_stands_for(bytes: Seq<u8>)
    ensures
        stands_for(base64_text(bytes), bytes),
{
    assert(base64_text(bytes) =~= base64_text(bytes) + padding(0));
}

/// White space around the text of a key file never changes which key it holds, and neither does
/// padding that is missing.
pub proof fn white_space_changes_no_key(
    before: Seq<char>,
    text: Seq<char>,
    after: Seq<char>,
    key: Seq<u8>,
)
    requires
        key.len() == 64,
        is_blank(before),
        is_blank(after),
        text == base64_text(key) || stands_for(text, key),
    ensures
        secret_key_of(before + text + after) == Some(key),
{
    lemma_base64_text_stands_for(key);
    lemma_base64_is_tight(text, key);
    only_white_space_is_trimmed(before, text, after);
    base64_round_trip(key, text);
}

/// A key file holds a key only where its text, white space around it aside, is the base64 text of
/// 64 bytes, of whose padding some may be missing; and the key is those bytes.
pub proof fn key_is_what_the_text_stands_for(contents: Seq<char>) -> (r: (
    Seq<char>,
    Seq<char>,
    Seq<char>,
))
    requires
        secret_key_of(contents) is Some,
    ensures
        contents == r.0 + r.1 + r.2,
        is_blank(r.0),
        is_blank(r.2),
        stands_for(r.1, secret_key_of(contents)->0),
        secret_key_of(contents)->0.len() == 64,
{
    reveal(base64_bytes);
    let (before, after) = trimmed_text_is_the_middle(contents);
    (before, trimmed(contents), after)
}

/// Every text of a key is parsed to that key, whatever white space is around it.
pub proof fn key_text_is_parsed(
    contents: &str,
    before: Seq<char>,
    text: Seq<char>,
    after: Seq<char>,
    key: Seq<u8>,
    r: Result<SecretKey, Option<String>>,
)
    requires
        call_ensures(parse_secret_key, (contents,), r),
        contents@ == before + text + after,
        is_blank(before),
        is_blank(after),
        key.len() == 64,
        text == base64_text(key) || stands_for(text, key),
    ensures
        r is Ok,
        r->Ok_0@ == key,
{
    white_space_changes_no_key(before, text, after, key);
}

/// What is no text of a key is refused. Where it stands for no bytes at all, what is wrong with it is
/// told; where it stands for fewer or more bytes than a key has, nothing is.
pub proof fn other_text_is_refused(
    contents: &str,
    before: Seq<char>,
    text: Seq<char>,
    after: Seq<char>,
    r: Result<SecretKey, Option<String>>,
)
    requires
        call_ensures(parse_secret_key, (contents,), r),
        contents@ == before + text + after,
        is_blank(before),
        is_tight(text),
        is_blank(after),
    ensures
        r is Ok <==> exists|key: Seq<u8>| key.len() == 64 && #[trigger] stands_for(text, key),
        forall|bytes: Seq<u8>| #[trigger] stands_for(text, bytes) && bytes.len() != 64 ==> r == Err::<
            SecretKey,
            Option<String>,
        >(None),
        (forall|bytes: Seq<u8>| !#[trigger] stands_for(text, bytes)) ==> r is Err && r->Err_0 is Some
            && r->Err_0->0@ == decode_fault(text),
{
    only_white_space_is_trimmed(before, text, after);
    assert forall|bytes: Seq<u8>| #[trigger] stands_for(text, bytes) implies base64_bytes(text)
        == Some(bytes) by {
        base64_round_trip(bytes, text);
    }
    reveal(base64_bytes);
}

/// A key is parsed back from its text, and its public key's text is that of its last 32 bytes.
pub proof fn key_is_parsed_back(
    key: &SecretKey,
    text: String,
    public_key: String,
    contents: &str,
    r: Result<SecretKey, Option<String>>,
)
    requires
        key@.len() == 64,
        call_ensures(SecretKey::text, (key,), text),
        call_ensures(SecretKey::public_key, (key,), public_key),
        contents@ == text@,
        call_ensures(parse_secret_key, (contents,), r),
    ensures
        text@ == base64_text(key@),
        text@.len() == 88,
        public_key@ == base64_text(key@.subrange(32, 64)),
        public_key@.len() == 44,
        r is Ok,
        r->Ok_0@ == key@,
{
    let none = Seq::<char>::empty();
    assert(contents@ =~= none + text@ + none);
    key_text_is_parsed(contents, none, text@, none, key@, r);
    base64_text_is_plain(key@);
    base64_text_is_plain(key@.subrange(32, 64));
}

/// A key is made of any 64 bytes, and of nothing else.
pub proof fn key_is_made_of_its_bytes(bytes: &[u8], r: Option<SecretKey>, back: &[u8])
    requires
        call_ensures(SecretKey::from_slice, (bytes,), r),
        r is Some ==> call_ensures(SecretKey::as_bytes, (&r->0,), back),
    ensures
        r is Some <==> bytes@.len() == 64,
        r is Some ==> back@ == bytes@,
{
}

/// A key pair is put back only for a slash or a colon in its public key, and 300 times at most.
pub proof fn keys_are_put_back_for_slashes_and_colons(public_key: &str, redraws: u32, r: bool)
    requires
        call_ensures(keep_key, (public_key, redraws), r),
    ensures
        !r <==> redraws < 300 && exists|i: int|
            0 <= i < public_key@.len() && (#[trigger] public_key@[i] == '/' || public_key@[i]
                == ':'),
{
    if exists|i: int|
        0 <= i < public_key@.len() && (#[trigger] public_key@[i] == '/' || public_key@[i] == ':') {
        let i = choose|i: int|
            0 <= i < public_key@.len() && (#[trigger] public_key@[i] == '/' || public_key@[i]
                == ':');
        assert(public_key@.contains(public_key@[i]));
    }
}

/// A key pair that is generated was drawn, belongs together, and has no slash in its public key
/// unless 300 others were put back before it.
pub proof fn generated_keys_belong_together(r: (String, SecretKey), public_key: String)
    requires
        call_ensures(generate_key_pair, (), r),
        call_ensures(SecretKey::public_key, (&r.1,), public_key),
    ensures
        r.0@ == public_key@,
        was_drawn(r.1@.subrange(32, 64), r.1@),
        !r.0@.contains('/') || exists|put_back: Seq<Seq<u8>>|
            put_back.len() == 300 && forall|i: int|
                0 <= i < put_back.len() ==> was_drawn(
                    (#[trigger] put_back[i]).subrange(32, 64),
                    put_back[i],
                ) && (base64_text(put_back[i].subrange(32, 64)).contains('/') || base64_text(
                    put_back[i].subrange(32, 64),
                ).contains(':')),
{
    reveal(is_kept_drawing);
}

/// The base64 text of one byte more than groups of three ends in two characters of padding.
proof fn lemma_padding_at_the_end(bytes: Seq<u8>)
    requires
        bytes.len() % 3 == 1,
    ensures
        base64_text(bytes).len() >= 4,
        base64_text(bytes)[base64_text(bytes).len() - 2] == '=',
        base64_text(bytes)[base64_text(bytes).len() - 1] == '=',
    decreases bytes.len(),
{
    if bytes.len() > 1 {
        let rest = bytes.skip(3);
        lemma_padding_at_the_end(rest);
        let text = base64_text(bytes);
        let end = base64_text(rest);
        assert(text.len() == end.len() + 4);
        assert(text[text.len() - 2] == end[end.len() - 2]);
        assert(text[text.len() - 1] == end[end.len() - 1]);
    }
}

/// A key file may leave out the padding of the key's text, or one character of it.
pub proof fn missing_padding_changes_no_key(key: Seq<u8>, missing: nat)
    requires
        key.len() == 64,
        missing <= 2,
    ensures
        secret_key_of(base64_text(key).take(88 - missing)) == Some(key),
{
    let text = base64_text(key);
    let rest = text.take(88 - missing);
    let none = Seq::<char>::empty();
    base64_text_is_plain(key);
    lemma_padding_at_the_end(key);
    assert(text =~= rest + padding(missing));
    assert(stands_for(rest, key));
    white_space_changes_no_key(none, rest, none, key);
    assert(none + rest + none =~= rest);
}

}
