//! Base64 text and the bytes that it stands for.

use vstd::prelude::*;

verus! {

/// The character that stands for the six bits `n`, `0 <= n < 64`.
pub open spec fn sextet(n: int) -> char {
    if n < 26 {
        (n + 65) as char
    } else if n < 52 {
        (n - 26 + 97) as char
    } else if n < 62 {
        (n - 52 + 48) as char
    } else if n == 62 {
        '+'
    } else {
        '/'
    }
}

/// The first `count` of the four characters that stand for the 24 bits `n`, filled up with `=`.
pub open spec fn quad(n: int, count: int) -> Seq<char> {
    seq![
        sextet(n / 262144),
        sextet((n / 4096) % 64),
        if count > 2 { sextet((n / 64) % 64) } else { '=' },
        if count > 3 { sextet(n % 64) } else { '=' },
    ]
}

/// The base64 text of `bytes`: each three bytes give four characters, and a rest of one or two
/// bytes gives four characters that end in `==` or `=`.
pub open spec fn base64_text(bytes: Seq<u8>) -> Seq<char>
    decreases bytes.len(),
{
    if bytes.len() == 0 {
        Seq::empty()
    } else if bytes.len() == 1 {
        quad(bytes[0] * 65536, 2)
    } else if bytes.len() == 2 {
        quad(bytes[0] * 65536 + bytes[1] * 256, 3)
    } else {
        quad(bytes[0] * 65536 + bytes[1] * 256 + bytes[2], 4) + base64_text(bytes.skip(3))
    }
}

/// So many characters of padding.
pub open spec fn padding(count: nat) -> Seq<char> {
    Seq::new(count, |i: int| '=')
}

/// Whether `text` stands for `bytes`: it is their base64 text, from whose end some or all of the
/// padding may be missing.
pub open spec fn stands_for(text: Seq<char>, bytes: Seq<u8>) -> bool {
    exists|missing: nat|
        missing <= 2 && base64_text(bytes) == text + #[trigger] padding(missing)
}

/// The bytes that `text` stands for; none, where it stands for none.
#[verifier::opaque]
pub open spec fn base64_bytes(text: Seq<char>) -> Option<Seq<u8>> {
    if exists|bytes: Seq<u8>| stands_for(text, bytes) {
        Some(choose|bytes: Seq<u8>| stands_for(text, bytes))
    } else {
        None
    }
}

/// How `base64::DecodeError` puts what is wrong with a text that stands for no bytes.
pub uninterp spec fn decode_fault(text: Seq<char>) -> Seq<char>;

/// `base64::encode` gives the base64 text of the bytes, in the standard alphabet and with padding.
/// Left out are inputs whose text is too long for a string.
#[verifier::external_body]
pub(crate) fn encode(bytes: &[u8]) -> (r: String)
    requires
        bytes@.len() <= 0x1000_0000,
    ensures
        r@ == base64_text(bytes@),
{
    base64::encode(bytes)
}

/// `base64::decode` gives the bytes that the input stands for, padding or not, and an error where
/// it stands for none: for a character that is none of base64, for padding before the end, for a
/// length that no bytes have, and for bits that belong to no byte. What is wrong is left to
/// `decode_fault`, which is the error in words.
#[verifier::external_body]
pub(crate) fn decode(text: &str) -> (r: Result<Vec<u8>, String>)
    ensures
        match r {
            Ok(bytes) => base64_bytes(text@) == Some(bytes@),
            Err(fault) => base64_bytes(text@) is None && fault@ == decode_fault(text@),
        },
{
    match base64::decode(text) {
        Ok(bytes) => Ok(bytes),
        Err(error) => Err(error.to_string()),
    }
}

/// The sextet characters are letters, digits, `+` and `/`, and no two values share one.
proof fn lemma_sextet(m: int, n: int)
    requires
        0 <= m < 64,
        0 <= n < 64,
    ensures
        sextet(m) == sextet(n) ==> m == n,
        is_base64_char(sextet(m)),
        sextet(m) != '=',
{
}

/// Whether `c` occurs in base64 text other than as padding.
pub open spec fn is_base64_char(c: char) -> bool {
    ('A' <= c <= 'Z') || ('a' <= c <= 'z') || ('0' <= c <= '9') || c == '+' || c == '/'
}

/// Base64 text holds letters, digits, `+`, `/` and padding, nothing else, and comes in fours.
pub proof fn base64_text_is_plain(bytes: Seq<u8>)
    ensures
        forall|i: int|
            0 <= i < base64_text(bytes).len() ==> (is_base64_char(#[trigger] base64_text(bytes)[i])
                || base64_text(bytes)[i] == '='),
        base64_text(bytes).len() == (bytes.len() + 2) / 3 * 4,
    decreases bytes.len(),
{
    if bytes.len() > 0 {
        let b1 = if bytes.len() > 1 { bytes[1] as int } else { 0 };
        let b2 = if bytes.len() > 2 { bytes[2] as int } else { 0 };
        let n = bytes[0] * 65536 + b1 * 256 + b2;
        assert(0 <= n < 16777216);
        assert(0 <= n / 262144 < 64);
        lemma_sextet(n / 262144, (n / 4096) % 64);
        lemma_sextet((n / 4096) % 64, (n / 64) % 64);
        lemma_sextet((n / 64) % 64, n % 64);
        lemma_sextet(n % 64, n % 64);
        if bytes.len() > 3 {
            base64_text_is_plain(bytes.skip(3));
        } else if bytes.len() == 3 {
            assert(bytes.skip(3) == Seq::<u8>::empty());
            assert(base64_text(bytes.skip(3)).len() == 0);
        }
    }
}

/// Twenty-four bits are given by their four groups of six.
proof fn lemma_sextets_give_value(n: int)
    requires
        0 <= n < 16777216,
    ensures
        n == (n / 262144) * 262144 + ((n / 4096) % 64) * 4096 + ((n / 64) % 64) * 64 + n % 64,
        0 <= n / 262144 < 64,
        n % 65536 == 0 ==> (n / 64) % 64 == 0 && n % 64 == 0,
        n % 256 == 0 ==> n % 64 == 0,
{
    let p = n / 64;
    let q = n / 4096;
    assert(q == p / 64);
    assert(n / 262144 == q / 64);
}

/// Two groups of four characters are alike only where they stand for the same 24 bits.
proof fn lemma_quad(m: int, n: int, count: int)
    requires
        0 <= m < 16777216,
        0 <= n < 16777216,
        2 <= count <= 4,
        count == 2 ==> m % 65536 == 0 && n % 65536 == 0,
        count == 3 ==> m % 256 == 0 && n % 256 == 0,
        quad(m, count) == quad(n, count),
    ensures
        m == n,
{
    lemma_sextets_give_value(m);
    lemma_sextets_give_value(n);
    assert(m / 262144 == n / 262144 && (m / 4096) % 64 == (n / 4096) % 64 && (m / 64) % 64 == (n
        / 64) % 64 && m % 64 == n % 64) by {
        assert(quad(m, count)[0] == quad(n, count)[0]);
        assert(quad(m, count)[1] == quad(n, count)[1]);
        assert(quad(m, count)[2] == quad(n, count)[2]);
        assert(quad(m, count)[3] == quad(n, count)[3]);
        lemma_sextet(m / 262144, n / 262144);
        lemma_sextet((m / 4096) % 64, (n / 4096) % 64);
        lemma_sextet((m / 64) % 64, (n / 64) % 64);
        lemma_sextet(m % 64, n % 64);
    }
}

/// The 24 bits of the first one, two or three bytes.
spec fn leading_bits(bytes: Seq<u8>) -> int {
    bytes[0] * 65536 + (if bytes.len() > 1 {
        bytes[1] * 256
    } else {
        0
    }) + (if bytes.len() > 2 {
        bytes[2] as int
    } else {
        0
    })
}

/// How many characters the first one, two or three bytes need.
spec fn leading_count(bytes: Seq<u8>) -> int {
    if bytes.len() > 2 {
        4
    } else {
        bytes.len() as int + 1
    }
}

/// The first four characters of a base64 text, and how the number of bytes shows in them.
proof fn lemma_leading_quad(bytes: Seq<u8>)
    requires
        bytes.len() > 0,
    ensures
        base64_text(bytes).len() >= 4,
        base64_text(bytes).take(4) == quad(leading_bits(bytes), leading_count(bytes)),
        base64_text(bytes)[2] == '=' <==> bytes.len() == 1,
        base64_text(bytes)[3] == '=' <==> bytes.len() < 3,
        bytes.len() > 2 ==> base64_text(bytes).skip(4) == base64_text(bytes.skip(3)),
        0 <= leading_bits(bytes) < 16777216,
        bytes.len() == 1 ==> leading_bits(bytes) % 65536 == 0,
        bytes.len() == 2 ==> leading_bits(bytes) % 256 == 0,
{
    let n = leading_bits(bytes);
    lemma_sextet((n / 64) % 64, n % 64);
    lemma_sextet(n % 64, n % 64);
    let q = quad(n, leading_count(bytes));
    assert(q.len() == 4);
    assert(base64_text(bytes).take(4) =~= q);
    assert(base64_text(bytes)[2] == q[2]);
    assert(base64_text(bytes)[3] == q[3]);
    if bytes.len() > 2 {
        assert(base64_text(bytes) == q + base64_text(bytes.skip(3)));
        assert(base64_text(bytes).skip(4) =~= base64_text(bytes.skip(3)));
    }
}

/// The leading bits give the leading bytes.
proof fn lemma_leading_bytes(a: Seq<u8>, b: Seq<u8>)
    requires
        a.len() > 0,
        b.len() > 0,
        leading_count(a) == leading_count(b),
        leading_bits(a) == leading_bits(b),
    ensures
        a[0] == b[0],
        a.len() > 1 ==> a[1] == b[1],
        a.len() > 2 ==> a[2] == b[2],
{
}

/// Sequences that agree in three elements and in all after them are the same.
proof fn lemma_same_from_parts(a: Seq<u8>, b: Seq<u8>)
    requires
        a.len() >= 3,
        b.len() >= 3,
        a[0] == b[0],
        a[1] == b[1],
        a[2] == b[2],
        a.skip(3) == b.skip(3),
    ensures
        a == b,
{
    assert(a.len() == a.skip(3).len() + 3);
    assert(b.len() == b.skip(3).len() + 3);
    assert forall|i: int| 0 <= i < a.len() implies a[i] == b[i] by {
        if i >= 3 {
            assert(a[i] == a.skip(3)[i - 3]);
            assert(b[i] == b.skip(3)[i - 3]);
        }
    }
    assert(a =~= b);
}

/// Different bytes have different base64 texts.
#[verifier::spinoff_prover]
pub proof fn base64_text_is_injective(a: Seq<u8>, b: Seq<u8>)
    requires
        base64_text(a) == base64_text(b),
    ensures
        a == b,
    decreases a.len(),
{
    assert(a.len() == 0 <==> b.len() == 0) by {
        base64_text_is_plain(a);
        base64_text_is_plain(b);
    }
    if a.len() == 0 {
        assert(a =~= b);
    } else {
        lemma_leading_quad(a);
        lemma_leading_quad(b);
        lemma_quad(leading_bits(a), leading_bits(b), leading_count(a));
        lemma_leading_bytes(a, b);
        if a.len() > 2 {
            base64_text_is_injective(a.skip(3), b.skip(3));
            lemma_same_from_parts(a, b);
        } else {
            assert(a =~= b);
        }
    }
}

/// A text stands for no two byte sequences.
pub proof fn base64_text_stands_for_one(text: Seq<char>, a: Seq<u8>, b: Seq<u8>)
    requires
        stands_for(text, a),
        stands_for(text, b),
    ensures
        a == b,
{
    let m = choose|m: nat| m <= 2 && base64_text(a) == text + #[trigger] padding(m);
    let n = choose|n: nat| n <= 2 && base64_text(b) == text + #[trigger] padding(n);
    base64_text_is_plain(a);
    base64_text_is_plain(b);
    assert(base64_text(a).len() == text.len() + m);
    assert(base64_text(b).len() == text.len() + n);
    assert(m == n);
    base64_text_is_injective(a, b);
}

/// Decoding the base64 text of some bytes gives those bytes, and so does decoding it without some
/// or all of its padding.
pub proof fn base64_round_trip(bytes: Seq<u8>, text: Seq<char>)
    requires
        text == base64_text(bytes) || stands_for(text, bytes),
    ensures
        base64_bytes(text) == Some(bytes),
{
    if text == base64_text(bytes) {
        assert(base64_text(bytes) =~= text + padding(0));
        assert(stands_for(text, bytes));
    }
    reveal(base64_bytes);
    let found = choose|b: Seq<u8>| stands_for(text, b);
    base64_text_stands_for_one(text, found, bytes);
}

/// A text with a character that is none of base64 stands for nothing, and neither does one that is
/// a single character longer than groups of four are.
pub proof fn other_text_is_not_decoded(text: Seq<char>, i: int)
    requires
        text.len() % 4 == 1 || (0 <= i < text.len() && !is_base64_char(text[i]) && text[i] != '='),
    ensures
        base64_bytes(text) is None,
{
    reveal(base64_bytes);
    assert forall|bytes: Seq<u8>| !stands_for(text, bytes) by {
        if stands_for(text, bytes) {
            let m = choose|m: nat| m <= 2 && base64_text(bytes) == text + #[trigger] padding(m);
            base64_text_is_plain(bytes);
            assert(base64_text(bytes).len() == text.len() + m);
            assert(0 <= i < text.len() ==> base64_text(bytes)[i] == text[i]);
        }
    }
}

}
