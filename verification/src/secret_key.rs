//! The server's signing key, and the texts in which it is kept and shown.

use vstd::prelude::*;

use crate::base64_text::{
    base64_bytes, base64_round_trip, base64_text, base64_text_is_plain, decode, decode_fault, encode,
    is_base64_char, other_text_is_not_decoded,
};
use crate::text::{has_char, is_white_space, trim, trimmed};

verus! {

/// How many bytes a secret key has.
pub const SECRET_KEY_BYTES: usize = 64;

/// How often a key pair is drawn anew because its public key is awkward to pass around.
pub const MAX_REDRAWS: u32 = 300;

/// An Ed25519 secret key: the seed, then the public key.
pub struct SecretKey {
    bytes: Vec<u8>,
}

impl View for SecretKey {
    type V = Seq<u8>;

    closed spec fn view(&self) -> Seq<u8> {
        self.bytes@
    }
}

/// The public key that belongs to the secret key `secret`.
pub open spec fn public_half(secret: Seq<u8>) -> Seq<u8> {
    secret.subrange(32, 64)
}

/// The text by which a server with the secret key `secret` is known.
pub open spec fn public_key_text(secret: Seq<u8>) -> Seq<char> {
    base64_text(public_half(secret))
}

/// The secret key that the text of a key file holds, white space around it aside.
pub open spec fn secret_key_of(contents: Seq<char>) -> Option<Seq<u8>> {
    match base64_bytes(trimmed(contents)) {
        Some(bytes) => if bytes.len() == SECRET_KEY_BYTES {
            Some(bytes)
        } else {
            None
        },
        None => None,
    }
}

/// What is wrong with the base64 text of a key file, where that stands for no bytes.
pub open spec fn key_fault(contents: Seq<char>) -> Option<Seq<char>> {
    if base64_bytes(trimmed(contents)) is None {
        Some(decode_fault(trimmed(contents)))
    } else {
        None
    }
}

/// Whether a public key's text has neither of the characters that get in the way in addresses
/// and paths.
pub open spec fn is_handy(public_key: Seq<char>) -> bool {
    !public_key.contains('/') && !public_key.contains(':')
}

/// `sign::gen_keypair` of sodiumoxide draws a public and a secret key, of 32 and of 64 bytes. The
/// secret key ends in the public key. Nothing more is said: which keys come is left to chance.
#[verifier::external_body]
fn draw_key_pair() -> (r: (Vec<u8>, Vec<u8>))
    ensures
        r.0@.len() == 32,
        r.1@.len() == 64,
        r.0@ == r.1@.subrange(32, 64),
{
    let (public, secret) = sodiumoxide::crypto::sign::gen_keypair();
    (public.0.to_vec(), secret.0.to_vec())
}

/// `sign::SecretKey::from_slice` of sodiumoxide takes 64 bytes as they are, and nothing else.
#[verifier::external_body]
fn key_from_slice(bytes: &[u8]) -> (r: Option<Vec<u8>>)
    ensures
        r is Some <==> bytes@.len() == 64,
        r is Some ==> r->0@ == bytes@,
{
    sodiumoxide::crypto::sign::SecretKey::from_slice(bytes).map(|key| key.0.to_vec())
}

/// `sign::SecretKey::public_key` of sodiumoxide gives the last 32 bytes of a secret key.
#[verifier::external_body]
fn public_from_secret(secret: &[u8]) -> (r: Vec<u8>)
    requires
        secret@.len() == 64,
    ensures
        r@ == secret@.subrange(32, 64),
{
    let key = sodiumoxide::crypto::sign::SecretKey::from_slice(secret).unwrap();
    key.public_key().0.to_vec()
}

/// Whether these keys are a pair that `sign::gen_keypair` gave.
pub closed spec fn was_drawn(public: Seq<u8>, secret: Seq<u8>) -> bool {
    exists|pair: (Vec<u8>, Vec<u8>)|
        #![trigger call_ensures(draw_key_pair, (), pair)]
        call_ensures(draw_key_pair, (), pair) && pair.0@ == public && pair.1@ == secret
}

/// Whether the secret key `kept` was drawn after those in `put_back`: each of them was drawn and put
/// back for its public key, and `kept` is handy or the last that could be drawn.
pub open spec fn is_drawing(put_back: Seq<Seq<u8>>, kept: Seq<u8>) -> bool {
    &&& put_back.len() <= MAX_REDRAWS
    &&& forall|i: int|
        0 <= i < put_back.len() ==> was_drawn(public_half(#[trigger] put_back[i]), put_back[i])
            && !is_handy(public_key_text(put_back[i]))
    &&& was_drawn(public_half(kept), kept)
    &&& is_handy(public_key_text(kept)) || put_back.len() == MAX_REDRAWS
}

/// Whether the secret key `kept` is one that was drawn, after all that were put back.
#[verifier::opaque]
pub open spec fn is_kept_drawing(kept: Seq<u8>) -> bool {
    exists|put_back: Seq<Seq<u8>>| is_drawing(put_back, kept)
}

impl SecretKey {
    #[verifier::type_invariant]
    spec fn well_formed(self) -> bool {
        self.bytes@.len() == SECRET_KEY_BYTES
    }

    /// The secret key with these bytes, where there are as many as a key has.
    pub fn from_slice(bytes: &[u8]) -> (r: Option<SecretKey>)
        ensures
            r is Some <==> bytes@.len() == SECRET_KEY_BYTES,
            r is Some ==> r->0@ == bytes@,
    {
        match key_from_slice(bytes) {
            Some(bytes) => Some(SecretKey { bytes }),
            None => None,
        }
    }

    /// The bytes of the key.
    pub fn as_bytes(&self) -> (r: &[u8])
        ensures
            r@ == self@,
            r@.len() == SECRET_KEY_BYTES,
    {
        proof {
            use_type_invariant(self);
        }
        self.bytes.as_slice()
    }

    /// The text in which the key is kept in its file.
    pub fn text(&self) -> (r: String)
        ensures
            r@ == base64_text(self@),
    {
        encode(self.as_bytes())
    }

    /// The text of the public key that belongs to the key.
    pub fn public_key(&self) -> (r: String)
        ensures
            r@ == public_key_text(self@),
            self@.len() == SECRET_KEY_BYTES,
    {
        encode(public_from_secret(self.as_bytes()).as_slice())
    }
}

/// The secret key that the text of a key file holds. Where the text is malformed, what is wrong
/// with its base64; nothing, where that is well but stands for too few or too many bytes.
pub fn parse_secret_key(contents: &str) -> (r: Result<SecretKey, Option<String>>)
    ensures
        match r {
            Ok(key) => secret_key_of(contents@) == Some(key@) && key_fault(contents@) is None,
            Err(Some(fault)) => secret_key_of(contents@) is None && key_fault(contents@) == Some(
                fault@,
            ),
            Err(None) => secret_key_of(contents@) is None && key_fault(contents@) is None,
        },
{
    let text: String = trim(contents);
    match decode(text.as_str()) {
        Ok(bytes) => match SecretKey::from_slice(bytes.as_slice()) {
            Some(key) => Ok(key),
            None => Err(None),
        },
        Err(fault) => Err(Some(fault)),
    }
}

/// Whether a key pair with this public key is kept, after `redraws` others were put back: one that
/// is handy is, and the last one is in any case.
pub fn keep_key(public_key: &str, redraws: u32) -> (r: bool)
    ensures
        r == (is_handy(public_key@) || redraws >= MAX_REDRAWS),
{
    redraws >= MAX_REDRAWS || (!has_char(public_key, '/') && !has_char(public_key, ':'))
}

/// Draws key pairs until `keep_key` keeps one. Which key comes is left to chance.
pub fn generate_key_pair() -> (r: (String, SecretKey))
    ensures
        r.1@.len() == SECRET_KEY_BYTES,
        r.0@ == public_key_text(r.1@),
        is_kept_drawing(r.1@),
{
    let mut redraws: u32 = 0;
    let ghost mut put_back: Seq<Seq<u8>> = Seq::empty();
    loop
        invariant
            redraws <= MAX_REDRAWS,
            put_back.len() == redraws,
            forall|i: int|
                0 <= i < put_back.len() ==> was_drawn(
                    public_half(#[trigger] put_back[i]),
                    put_back[i],
                ) && !is_handy(public_key_text(put_back[i])),
        decreases MAX_REDRAWS - redraws,
    {
        let (public, bytes) = draw_key_pair();
        assert(call_ensures(draw_key_pair, (), (public, bytes)));
        assert(was_drawn(public_half(bytes@), bytes@));
        let public_key: String = encode(public.as_slice());
        if keep_key(public_key.as_str(), redraws) {
            let r: (String, SecretKey) = (public_key, SecretKey { bytes });
            assert(is_kept_drawing(r.1@)) by {
                reveal(is_kept_drawing);
                assert(is_drawing(put_back, r.1@));
            }
            return r;
        }
        proof {
            put_back = put_back.push(bytes@);
        }
        redraws += 1;
    }
}

/// A text without white space is trimmed already.
proof fn lemma_trimmed_of_plain(text: Seq<char>)
    requires
        forall|i: int| 0 <= i < text.len() ==> !is_white_space(#[trigger] text[i]),
    ensures
        trimmed(text) == text,
{
}

/// The text in which a key is kept is read back as that key.
pub proof fn kept_key_reads_back(secret: Seq<u8>)
    requires
        secret.len() == SECRET_KEY_BYTES,
    ensures
        secret_key_of(base64_text(secret)) == Some(secret),
{
    base64_text_is_plain(secret);
    lemma_trimmed_of_plain(base64_text(secret));
    base64_round_trip(secret, base64_text(secret));
}

/// A key file with a character inside its text that is none of base64 holds no key.
pub proof fn other_text_holds_no_key(contents: Seq<char>, i: int)
    requires
        0 <= i < trimmed(contents).len(),
        !is_base64_char(trimmed(contents)[i]),
        trimmed(contents)[i] != '=',
    ensures
        secret_key_of(contents) is None,
{
    other_text_is_not_decoded(trimmed(contents), i);
}

/// The text of a public key is trimmed, so that it is found again in a file that holds it.
pub proof fn public_key_text_is_trimmed(secret: Seq<u8>)
    ensures
        trimmed(public_key_text(secret)) == public_key_text(secret),
{
    base64_text_is_plain(public_half(secret));
    lemma_trimmed_of_plain(public_key_text(secret));
}

/// The text of a public key is handy unless one of its characters is a slash.
pub proof fn only_slashes_are_unhandy(secret: Seq<u8>)
    ensures
        is_handy(public_key_text(secret)) <==> !public_key_text(secret).contains('/'),
{
    base64_text_is_plain(public_half(secret));
}

}
