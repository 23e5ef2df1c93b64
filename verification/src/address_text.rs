//! How addresses are written, and that they are read as they are written.

use vstd::prelude::*;

use crate::address::{
    digit, double_colon_at, first_double_colon, groups, groups_number, ip_addr, ipv4, ipv4_byte,
    ipv4_fits, ipv6_fits, ipv6_groups, lemma_no_number, number, parse_ip_addr, piece_groups,
    pieces_groups, IpAddr,
};
use crate::listen::{parse_bind_address, BindAddressError};
use crate::text::{
    is_white_space, joined, joined_pieces_are_split, split_has_a_piece, split_on, trimmed,
};
use crate::text_laws::{is_blank, is_tight, only_white_space_is_trimmed, pieces_make_the_text};

verus! {

/// The character for the digit `d` in a base of at most 16, with small letters.
pub open spec fn digit_char(d: int) -> char {
    if d < 10 {
        (d + 48) as char
    } else {
        (d + 87) as char
    }
}

/// The number `n` in base `base`, without zeros in front.
pub open spec fn numeral(n: int, base: int) -> Seq<char>
    decreases n,
{
    if base < 2 || n < base {
        seq![digit_char(n)]
    } else {
        proof {
            assert(0 <= n / base < n) by (nonlinear_arith)
                requires
                    2 <= base <= n,
            ;
        }
        numeral(n / base, base).push(digit_char(n % base))
    }
}

/// The four bytes of an IPv4 address.
pub open spec fn ipv4_bytes(n: int) -> Seq<int> {
    seq![n / 16777216, n / 65536 % 256, n / 256 % 256, n % 256]
}

/// An IPv4 address as it is written: its bytes in base 10, with dots between them.
pub open spec fn ipv4_text(n: int) -> Seq<char> {
    joined(ipv4_bytes(n).map_values(|b: int| numeral(b, 10)), '.')
}

/// The last `count` 16-bit groups of a number.
pub open spec fn number_groups(n: int, count: nat) -> Seq<int>
    decreases count,
{
    if count == 0 {
        Seq::empty()
    } else {
        number_groups(n / 65536, (count - 1) as nat).push(n % 65536)
    }
}

/// The pieces in which groups are written: each in base 16.
pub open spec fn group_pieces(all: Seq<int>) -> Seq<Seq<char>> {
    all.map_values(|g: int| numeral(g, 16))
}

/// Groups as they are written, with colons between them.
pub open spec fn groups_text(all: Seq<int>) -> Seq<char> {
    joined(group_pieces(all), ':')
}

/// Groups as they are written with two colons in place of those from `from` to `to`.
pub open spec fn shortened_text(all: Seq<int>, from: int, to: int) -> Seq<char> {
    groups_text(all.take(from)) + seq![':', ':'] + groups_text(all.skip(to))
}

/// Whether the groups from `from` to `to` are one or more, and are all 0.
pub open spec fn zeros_at(all: Seq<int>, from: int, to: int) -> bool {
    &&& 0 <= from < to <= all.len()
    &&& forall|i: int| from <= i < to ==> #[trigger] all[i] == 0
}

/// Whether `text` is a way to write `ip`. An IPv4 address is written in one way. An IPv6 address is
/// written with all of its groups; or with two colons in place of any groups that are 0; or, where
/// it stands for an IPv4 address, with that at its end.
pub open spec fn is_written(text: Seq<char>, ip: IpAddr) -> bool {
    match ip {
        IpAddr::V4(n) => text == ipv4_text(n as int),
        IpAddr::V6(n) => {
            let all = number_groups(n as int, 8);
            ||| text == groups_text(all)
            ||| exists|from: int, to: int|
                zeros_at(all, from, to) && text == #[trigger] shortened_text(all, from, to)
            ||| n as int / 0x1_0000_0000 == 0xffff && text == seq![':', ':', 'f', 'f', 'f', 'f', ':']
                + ipv4_text(n as int % 0x1_0000_0000)
        },
    }
}

/// Whether all characters of `text` are digits in base 16.
spec fn all_digits(text: Seq<char>) -> bool {
    forall|i: int| 0 <= i < text.len() ==> digit(#[trigger] text[i]) is Some
}

/// A numeral is read as its number.
proof fn lemma_numeral(n: int, base: int)
    requires
        n >= 0,
        base == 10 || base == 16,
    ensures
        number(numeral(n, base), base) == Some(n),
        numeral(n, base).len() > 0,
        all_digits(numeral(n, base)),
        n > 0 ==> numeral(n, base)[0] != '0',
        numeral(n, base).len() > 1 ==> n >= base,
        n < base ==> numeral(n, base).len() == 1,
        n < base * base ==> numeral(n, base).len() <= 2,
        n < base * base * base ==> numeral(n, base).len() <= 3,
        n < base * base * base * base ==> numeral(n, base).len() <= 4,
    decreases n,
{
    if n >= base {
        lemma_numeral(n / base, base);
        let before = numeral(n / base, base);
        let text = before.push(digit_char(n % base));
        assert(text.drop_last() =~= before);
        if base == 10 {
            assert(n == n / 10 * 10 + n % 10);
        } else {
            assert(n == n / 16 * 16 + n % 16);
        }
    }
}

/// A digit is neither a separator nor white space.
proof fn lemma_digits_are_plain(text: Seq<char>)
    requires
        all_digits(text),
    ensures
        !text.contains('.'),
        !text.contains(':'),
        forall|i: int| 0 <= i < text.len() ==> !is_white_space(#[trigger] text[i]),
{
}

/// Whether `text` has no white space, nor anything but digits, dots and colons.
spec fn is_plain(text: Seq<char>) -> bool {
    forall|i: int|
        0 <= i < text.len() ==> digit(#[trigger] text[i]) is Some || text[i] == '.' || text[i]
            == ':'
}

/// What is joined of numerals begins and ends in a digit, and has no two separators together.
proof fn lemma_joined(pieces: Seq<Seq<char>>, separator: char)
    requires
        separator == '.' || separator == ':',
        pieces.len() > 0,
        forall|i: int|
            0 <= i < pieces.len() ==> (#[trigger] pieces[i]).len() > 0 && all_digits(pieces[i]),
    ensures
        joined(pieces, separator).len() > 0,
        digit(joined(pieces, separator)[0]) is Some,
        digit(joined(pieces, separator).last()) is Some,
        forall|i: int|
            0 <= i < joined(pieces, separator).len() ==> digit(
                #[trigger] joined(pieces, separator)[i],
            ) is Some || joined(pieces, separator)[i] == separator,
        forall|i: int| !double_colon_at(joined(pieces, separator), i),
        pieces.len() > 1 ==> joined(pieces, separator).contains(separator),
    decreases pieces.len(),
{
    let text = joined(pieces, separator);
    let last = pieces.last();
    assert(last == pieces[pieces.len() - 1]);
    if pieces.len() == 1 {
        lemma_digits_are_plain(last);
        assert forall|i: int| !double_colon_at(text, i) by {
            if double_colon_at(text, i) {
                assert(text.contains(text[i]));
            }
        }
    } else {
        let rest = pieces.drop_last();
        assert forall|i: int| 0 <= i < rest.len() implies (#[trigger] rest[i]).len() > 0
            && all_digits(rest[i]) by {
            assert(rest[i] == pieces[i]);
        }
        lemma_joined(rest, separator);
        let before = joined(rest, separator);
        assert(text == before.push(separator) + last);
        let at = before.len() as int;
        assert(text[at] == separator);
        assert(text[0] == before[0]);
        assert(text.last() == last.last());
        assert forall|i: int| 0 <= i < text.len() implies digit(#[trigger] text[i]) is Some
            || text[i] == separator by {
            if i < at {
                assert(text[i] == before[i]);
            } else if i > at {
                assert(text[i] == last[i - at - 1]);
            }
        }
        assert forall|i: int| !double_colon_at(text, i) by {
            if double_colon_at(text, i) {
                if i + 1 < at {
                    assert(double_colon_at(before, i));
                } else if i + 1 == at {
                    assert(text[i] == before.last());
                } else {
                    assert(text[i + 1] == last[i - at]);
                }
            }
        }
    }
}

/// The bytes of an IPv4 address give it back.
proof fn lemma_ipv4_bytes(n: int)
    requires
        0 <= n <= u32::MAX,
    ensures
        ipv4_bytes(n).len() == 4,
        forall|i: int| 0 <= i < 4 ==> 0 <= #[trigger] ipv4_bytes(n)[i] <= 255,
        ((ipv4_bytes(n)[0] * 256 + ipv4_bytes(n)[1]) * 256 + ipv4_bytes(n)[2]) * 256
            + ipv4_bytes(n)[3] == n,
{
    let a = n / 256;
    let b = n / 65536;
    assert(b == a / 256);
    assert(n / 16777216 == b / 256);
}

/// An IPv4 address is read as it is written.
proof fn lemma_ipv4_text(n: int)
    requires
        0 <= n <= u32::MAX,
    ensures
        ipv4(ipv4_text(n)) == Some(n),
        is_plain(ipv4_text(n)),
        ipv4_text(n).len() > 0,
        !ipv4_text(n).contains(':'),
        ipv4_text(n).contains('.'),
{
    let bytes = ipv4_bytes(n);
    let pieces = bytes.map_values(|b: int| numeral(b, 10));
    let text = ipv4_text(n);
    lemma_ipv4_bytes(n);
    assert forall|i: int| 0 <= i < 4 implies {
        let piece = #[trigger] pieces[i];
        piece.len() > 0 && all_digits(piece) && !piece.contains('.') && ipv4_byte(piece) == Some(
            bytes[i],
        )
    } by {
        lemma_numeral(bytes[i], 10);
        lemma_digits_are_plain(pieces[i]);
    }
    lemma_joined(pieces, '.');
    joined_pieces_are_split(pieces, '.');
    assert forall|i: int| 0 <= i < text.len() implies text[i] != ':' by {
        assert(digit(text[i]) is Some || text[i] == '.');
    }
}

/// What occurs in a text, and is no separator, occurs in a piece of it.
proof fn lemma_in_a_piece(text: Seq<char>, separator: char, c: char) -> (k: int)
    requires
        text.contains(c),
        c != separator,
    ensures
        0 <= k < split_on(text, separator).len(),
        split_on(text, separator)[k].contains(c),
    decreases text.len(),
{
    let rest = text.drop_last();
    let before = split_on(rest, separator);
    let all = split_on(text, separator);
    split_has_a_piece(rest, separator);
    if text.last() == c {
        let k = all.len() - 1;
        assert(all[k] == before.last().push(c));
        assert(all[k][all[k].len() - 1] == c);
        k
    } else {
        let i = choose|i: int| 0 <= i < text.len() && text[i] == c;
        assert(rest[i] == c);
        let k = lemma_in_a_piece(rest, separator, c);
        if text.last() != separator && k == before.len() - 1 {
            let j = choose|j: int| 0 <= j < before[k].len() && before[k][j] == c;
            assert(all[k] == before.last().push(text.last()));
            assert(all[k][j] == c);
        } else {
            assert(all[k] == before[k]);
        }
        k
    }
}

/// A text with a colon is no IPv4 address.
proof fn lemma_no_ipv4(text: Seq<char>)
    requires
        text.contains(':'),
    ensures
        ipv4(text) is None,
{
    let parts = split_on(text, '.');
    let k = lemma_in_a_piece(text, '.', ':');
    let j = choose|j: int| 0 <= j < parts[k].len() && parts[k][j] == ':';
    lemma_no_number(parts[k], 10, j);
    assert(ipv4_byte(parts[k]) is None);
}

/// Whether each of `all` is a number of 16 bits.
spec fn are_16_bits(all: Seq<int>) -> bool {
    forall|i: int| 0 <= i < all.len() ==> 0 <= #[trigger] all[i] <= 0xffff
}

/// Each group is read as it is written.
proof fn lemma_group_pieces(all: Seq<int>)
    requires
        are_16_bits(all),
    ensures
        group_pieces(all).len() == all.len(),
        forall|i: int|
            0 <= i < all.len() ==> (#[trigger] group_pieces(all)[i]).len() > 0 && all_digits(
                group_pieces(all)[i],
            ) && !group_pieces(all)[i].contains(':') && piece_groups(group_pieces(all)[i], false)
                == Some(seq![all[i]]) && piece_groups(group_pieces(all)[i], true) == Some(
                seq![all[i]],
            ),
{
    assert forall|i: int| 0 <= i < all.len() implies (#[trigger] group_pieces(all)[i]).len() > 0
        && all_digits(group_pieces(all)[i]) && !group_pieces(all)[i].contains(':') && piece_groups(
        group_pieces(all)[i],
        false,
    ) == Some(seq![all[i]]) && piece_groups(group_pieces(all)[i], true) == Some(seq![all[i]]) by {
        lemma_numeral(all[i], 16);
        lemma_digits_are_plain(group_pieces(all)[i]);
    }
}

/// The groups that pieces write are those of which they are the numerals.
proof fn lemma_pieces_groups(all: Seq<int>, ipv4_too: bool)
    requires
        are_16_bits(all),
    ensures
        pieces_groups(group_pieces(all), ipv4_too) == Some(all),
    decreases all.len(),
{
    lemma_group_pieces(all);
    if all.len() == 0 {
        assert(pieces_groups(group_pieces(all), ipv4_too) == Some(Seq::<int>::empty()));
        assert(all =~= Seq::<int>::empty());
    } else {
        let rest = all.drop_last();
        assert(are_16_bits(rest));
        lemma_pieces_groups(rest, false);
        assert(group_pieces(all).drop_last() =~= group_pieces(rest));
        assert(group_pieces(all).last() == group_pieces(all)[all.len() - 1]);
        assert(rest + seq![all.last()] =~= all);
    }
}

/// Groups are read as they are written.
proof fn lemma_groups_text(all: Seq<int>, ipv4_too: bool)
    requires
        are_16_bits(all),
    ensures
        groups(groups_text(all), ipv4_too) == Some(all),
        is_plain(groups_text(all)),
        forall|i: int| !double_colon_at(groups_text(all), i),
        groups_text(all).len() > 0 ==> groups_text(all).last() != ':',
        all.len() > 0 ==> groups_text(all).len() > 0,
        all.len() > 1 ==> groups_text(all).contains(':'),
{
    let pieces = group_pieces(all);
    let text = groups_text(all);
    lemma_group_pieces(all);
    if all.len() == 0 {
        assert(all =~= Seq::<int>::empty());
    } else {
        lemma_joined(pieces, ':');
        joined_pieces_are_split(pieces, ':');
        lemma_pieces_groups(all, ipv4_too);
        assert forall|i: int| 0 <= i < text.len() implies digit(#[trigger] text[i]) is Some
            || text[i] == '.' || text[i] == ':' by {}
    }
}

/// What stands before and after the first two colons is read on its own.
proof fn lemma_two_colons(head: Seq<char>, tail: Seq<char>)
    requires
        forall|i: int| !double_colon_at(head, i),
        head.len() > 0 ==> head.last() != ':',
    ensures
        ({
            let text = head + seq![':', ':'] + tail;
            &&& text.contains(':')
            &&& ipv6_groups(text) == (match (groups(head, false), groups(tail, true)) {
                (Some(a), Some(b)) if a.len() + b.len() < 8 => Some(
                    a + Seq::new((8 - a.len() - b.len()) as nat, |j: int| 0int) + b,
                ),
                _ => None,
            })
        }),
{
    let text = head + seq![':', ':'] + tail;
    let at = head.len() as int;
    assert(text[at] == ':' && text[at + 1] == ':');
    assert(double_colon_at(text, at));
    assert(first_double_colon(text, at)) by {
        assert forall|j: int| 0 <= j < at implies !double_colon_at(text, j) by {
            assert(text[j] == head[j]);
            if j + 1 < at {
                assert(text[j + 1] == head[j + 1]);
                assert(!double_colon_at(head, j));
            } else {
                assert(head[j] == head.last());
            }
        }
    }
    let found = choose|i: int| first_double_colon(text, i);
    assert(found == at);
    assert(text.take(at) =~= head);
    assert(text.skip(at + 2) =~= tail);
}

/// The groups of a number give it back.
proof fn lemma_number_groups(n: int, count: nat)
    requires
        n >= 0,
    ensures
        number_groups(n, count).len() == count,
        are_16_bits(number_groups(n, count)),
        count == 0 ==> groups_number(number_groups(n, count)) == 0,
        count > 0 ==> groups_number(number_groups(n, count)) == groups_number(
            number_groups(n / 65536, (count - 1) as nat),
        ) * 65536 + n % 65536,
    decreases count,
{
    if count > 0 {
        let before = number_groups(n / 65536, (count - 1) as nat);
        lemma_number_groups(n / 65536, (count - 1) as nat);
        assert(before.push(n % 65536).drop_last() =~= before);
    }
}

/// Eight groups of a number of 128 bits give it back.
#[verifier::spinoff_prover]
#[verifier::rlimit(30)]
proof fn lemma_eight_groups(n: u128)
    ensures
        groups_number(number_groups(n as int, 8)) == n,
        number_groups(n as int, 8).len() == 8,
        are_16_bits(number_groups(n as int, 8)),
{
    let n0 = n as int;
    let n1 = n0 / 65536;
    let n2 = n1 / 65536;
    let n3 = n2 / 65536;
    let n4 = n3 / 65536;
    let n5 = n4 / 65536;
    let n6 = n5 / 65536;
    let n7 = n6 / 65536;
    let n8 = n7 / 65536;
    lemma_number_groups(n0, 8);
    lemma_number_groups(n1, 7);
    lemma_number_groups(n2, 6);
    lemma_number_groups(n3, 5);
    lemma_number_groups(n4, 4);
    lemma_number_groups(n5, 3);
    lemma_number_groups(n6, 2);
    lemma_number_groups(n7, 1);
    lemma_number_groups(n8, 0);
    assert(n0 <= 0xffff_ffff_ffff_ffff_ffff_ffff_ffff_ffff);
    assert(n7 <= 0xffff);
    assert(n8 == 0);
}

/// An address with all of its groups is read as it is written.
proof fn lemma_full_text(n: u128)
    ensures
        ip_addr(groups_text(number_groups(n as int, 8))) == Some(IpAddr::V6(n)),
{
    let all = number_groups(n as int, 8);
    lemma_eight_groups(n);
    lemma_groups_text(all, true);
    lemma_no_ipv4(groups_text(all));
}

/// An address with two colons in place of groups is read as it is written.
#[verifier::spinoff_prover]
#[verifier::rlimit(30)]
proof fn lemma_shortened_text(n: u128, from: int, to: int)
    requires
        zeros_at(number_groups(n as int, 8), from, to),
    ensures
        ip_addr(shortened_text(number_groups(n as int, 8), from, to)) == Some(IpAddr::V6(n)),
        is_plain(shortened_text(number_groups(n as int, 8), from, to)),
{
    let all = number_groups(n as int, 8);
    lemma_eight_groups(n);
    let head = all.take(from);
    let tail = all.skip(to);
    assert(are_16_bits(head));
    assert(are_16_bits(tail));
    lemma_groups_text(head, false);
    lemma_groups_text(tail, true);
    lemma_two_colons(groups_text(head), groups_text(tail));
    lemma_no_ipv4(shortened_text(all, from, to));
    assert(head + Seq::new((8 - head.len() - tail.len()) as nat, |j: int| 0int) + tail =~= all);
}

/// What stands behind the two colons of an address with an IPv4 address at its end is read as it is
/// written.
#[verifier::spinoff_prover]
#[verifier::rlimit(30)]
proof fn lemma_mapped_tail(low: int)
    requires
        0 <= low <= u32::MAX,
    ensures
        groups(seq!['f', 'f', 'f', 'f', ':'] + ipv4_text(low), true) == Some(
            seq![0xffffint, low / 65536, low % 65536],
        ),
{
    let last = ipv4_text(low);
    let ones = seq!['f', 'f', 'f', 'f'];
    let tail = seq!['f', 'f', 'f', 'f', ':'] + last;
    let pieces = seq![ones, last];
    let all = seq![0xffffint, low / 65536, low % 65536];
    assert(joined(pieces, ':') == tail) by {
        reveal_with_fuel(joined, 3);
        assert(pieces.drop_last() =~= seq![ones]);
        assert(ones.push(':') + last =~= tail);
    }
    assert(writes_group(ones, 0xffff));
    assert(write_groups_and_ipv4(pieces, all, low));
    lemma_text_writes(tail, all, true);
}

/// The number of an address that stands for an IPv4 address.
proof fn lemma_mapped_number(low: int)
    requires
        0 <= low <= u32::MAX,
    ensures
        groups_number(seq![0int, 0, 0, 0, 0, 0xffff, low / 65536, low % 65536]) == 0xffff_0000_0000
            + low,
{
    let all = seq![0int, 0, 0, 0, 0, 0xffff, low / 65536, low % 65536];
    let e7 = seq![0int, 0, 0, 0, 0, 0xffff, low / 65536];
    let e6 = seq![0int, 0, 0, 0, 0, 0xffff];
    let e5 = seq![0int, 0, 0, 0, 0];
    assert(all.drop_last() =~= e7);
    assert(e7.drop_last() =~= e6);
    assert(e6.drop_last() =~= e5);
    assert(groups_number(e5) == 0) by {
        reveal_with_fuel(groups_number, 6);
        assert(e5.drop_last() =~= seq![0int, 0, 0, 0]);
        assert(e5.drop_last().drop_last() =~= seq![0int, 0, 0]);
        assert(e5.drop_last().drop_last().drop_last() =~= seq![0int, 0]);
        assert(e5.drop_last().drop_last().drop_last().drop_last() =~= seq![0int]);
    }
    assert(groups_number(e6) == 0xffff);
    assert(groups_number(e7) == 0xffff_0000 + low / 65536);
}

/// An address with an IPv4 address at its end is read as it is written.
#[verifier::spinoff_prover]
#[verifier::rlimit(30)]
proof fn lemma_mapped_text(n: u128)
    requires
        n as int / 0x1_0000_0000 == 0xffff,
    ensures
        ({
            let text = seq![':', ':', 'f', 'f', 'f', 'f', ':'] + ipv4_text(
                n as int % 0x1_0000_0000,
            );
            &&& ip_addr(text) == Some(IpAddr::V6(n))
            &&& is_plain(text)
        }),
{
    let low = n as int % 0x1_0000_0000;
    let last = ipv4_text(low);
    let text = seq![':', ':', 'f', 'f', 'f', 'f', ':'] + last;
    let tail = seq!['f', 'f', 'f', 'f', ':'] + last;
    let head = Seq::<char>::empty();
    lemma_mapped_tail(low);
    lemma_two_colons(head, tail);
    assert(head + seq![':', ':'] + tail =~= text);
    lemma_no_ipv4(text);
    let all = seq![0int, 0, 0, 0, 0, 0xffff, low / 65536, low % 65536];
    assert(ipv6_groups(text) == Some(all)) by {
        assert(Seq::<int>::empty() + Seq::new(5, |j: int| 0int) + seq![
            0xffffint,
            low / 65536,
            low % 65536,
        ] =~= all);
    }
    lemma_mapped_number(low);
    lemma_ipv4_text(low);
    assert forall|i: int| 0 <= i < text.len() implies digit(#[trigger] text[i]) is Some
        || text[i] == '.' || text[i] == ':' by {
        if i >= 7 {
            assert(text[i] == last[i - 7]);
        }
    }
}

/// White space around a text without any is trimmed.
proof fn lemma_trimmed_around(before: Seq<char>, text: Seq<char>, after: Seq<char>)
    requires
        text.len() > 0,
        !is_white_space(text.first()),
        !is_white_space(text.last()),
        forall|i: int| 0 <= i < before.len() ==> is_white_space(#[trigger] before[i]),
        forall|i: int| 0 <= i < after.len() ==> is_white_space(#[trigger] after[i]),
    ensures
        trimmed(before + text + after) == text,
{
    only_white_space_is_trimmed(before, text, after);
}

/// Every address is read as it is written, in whichever way.
pub proof fn written_address_is_read(text: Seq<char>, ip: IpAddr)
    requires
        is_written(text, ip),
    ensures
        ip_addr(text) == Some(ip),
        text.len() > 0,
        forall|i: int| 0 <= i < text.len() ==> !is_white_space(#[trigger] text[i]),
{
    match ip {
        IpAddr::V4(n) => {
            lemma_ipv4_text(n as int);
        },
        IpAddr::V6(n) => {
            let all = number_groups(n as int, 8);
            if text == groups_text(all) {
                lemma_full_text(n);
                lemma_eight_groups(n);
                lemma_groups_text(all, true);
            } else if exists|from: int, to: int|
                zeros_at(all, from, to) && text == #[trigger] shortened_text(all, from, to) {
                let (from, to) = choose|from: int, to: int|
                    zeros_at(all, from, to) && text == #[trigger] shortened_text(all, from, to);
                lemma_shortened_text(n, from, to);
            } else {
                lemma_mapped_text(n);
            }
        },
    }
    assert(is_plain(text));
}

/// A setting that writes an address, with any white space around it, gives that address.
pub proof fn written_bind_address_is_given(
    value: &str,
    before: Seq<char>,
    text: Seq<char>,
    after: Seq<char>,
    ip: IpAddr,
    r: Result<Option<IpAddr>, BindAddressError>,
)
    requires
        is_written(text, ip),
        forall|i: int| 0 <= i < before.len() ==> is_white_space(#[trigger] before[i]),
        forall|i: int| 0 <= i < after.len() ==> is_white_space(#[trigger] after[i]),
        value@ == before + text + after,
        call_ensures(parse_bind_address, (value,), r),
    ensures
        r == Ok::<Option<IpAddr>, BindAddressError>(Some(ip)),
{
    written_address_is_read(text, ip);
    lemma_trimmed_around(before, text, after);
}

/// What the hexadecimal digit `c` is worth; nothing below 0 is a digit.
pub open spec fn hex_value(c: char) -> int {
    if '0' <= c <= '9' {
        c as int - 48
    } else if 'a' <= c <= 'f' {
        c as int - 87
    } else if 'A' <= c <= 'F' {
        c as int - 55
    } else {
        -1
    }
}

/// Whether `piece` writes the group `g`: as one to four hexadecimal digits, of either case and with
/// any zeros in front.
pub open spec fn writes_group(piece: Seq<char>, g: int) -> bool {
    &&& 1 <= piece.len() <= 4
    &&& forall|i: int| 0 <= i < piece.len() ==> hex_value(#[trigger] piece[i]) >= 0
    &&& g == (if piece.len() == 1 {
        hex_value(piece[0])
    } else if piece.len() == 2 {
        hex_value(piece[0]) * 16 + hex_value(piece[1])
    } else if piece.len() == 3 {
        hex_value(piece[0]) * 256 + hex_value(piece[1]) * 16 + hex_value(piece[2])
    } else {
        hex_value(piece[0]) * 4096 + hex_value(piece[1]) * 256 + hex_value(piece[2]) * 16
            + hex_value(piece[3])
    })
}

/// Whether `pieces` write the groups `all` one by one.
pub open spec fn write_groups(pieces: Seq<Seq<char>>, all: Seq<int>) -> bool {
    &&& pieces.len() == all.len()
    &&& forall|i: int| 0 <= i < pieces.len() ==> writes_group(#[trigger] pieces[i], all[i])
}

/// Whether `pieces` write the groups `all`: one by one, but the last two as an IPv4 address in the
/// last piece.
pub open spec fn write_groups_and_ipv4(pieces: Seq<Seq<char>>, all: Seq<int>, n: int) -> bool {
    &&& pieces.len() > 0
    &&& pieces.len() + 1 == all.len()
    &&& forall|i: int| 0 <= i < pieces.len() - 1 ==> writes_group(#[trigger] pieces[i], all[i])
    &&& 0 <= n <= u32::MAX
    &&& pieces[pieces.len() - 1] == ipv4_text(n)
    &&& all[all.len() - 2] == n / 65536
    &&& all[all.len() - 1] == n % 65536
}

/// Whether pieces with colons between them, which make `text`, write the groups `all`; with an IPv4
/// address at the end, where that may be.
pub open spec fn text_writes_groups(text: Seq<char>, all: Seq<int>, ipv4_too: bool) -> bool {
    ||| exists|pieces: Seq<Seq<char>>| #[trigger]
        write_groups(pieces, all) && text == joined(pieces, ':')
    ||| ipv4_too && exists|pieces: Seq<Seq<char>>, n: int| #[trigger]
        write_groups_and_ipv4(pieces, all, n) && text == joined(pieces, ':')
}

/// Whether `text` writes the groups `all` with two colons in place of one or more groups of 0.
pub open spec fn writes_shortened(
    text: Seq<char>,
    all: Seq<int>,
    head: Seq<char>,
    tail: Seq<char>,
    from: int,
    to: int,
) -> bool {
    &&& zeros_at(all, from, to)
    &&& text == head + seq![':', ':'] + tail
    &&& text_writes_groups(head, all.take(from), false)
    &&& text_writes_groups(tail, all.skip(to), true)
}

/// Whether `text` writes the eight groups `all` of an IPv6 address.
pub open spec fn writes_ipv6(text: Seq<char>, all: Seq<int>) -> bool {
    &&& all.len() == 8
    &&& {
        ||| text_writes_groups(text, all, true)
        ||| exists|head: Seq<char>, tail: Seq<char>, from: int, to: int| #[trigger]
            writes_shortened(text, all, head, tail, from, to)
    }
}

/// Whether `text` writes `ip`: an IPv4 address as four decimal numbers without zeros in front, with
/// dots between them; an IPv6 address as eight groups, with two colons in place of some where they
/// are 0, and with an IPv4 address in place of the last two where that is wanted.
pub open spec fn writes(text: Seq<char>, ip: IpAddr) -> bool {
    match ip {
        IpAddr::V4(n) => text == ipv4_text(n as int),
        IpAddr::V6(n) => writes_ipv6(text, number_groups(n as int, 8)),
    }
}

/// A piece of few digits is a number exactly where it writes that group.
#[verifier::spinoff_prover]
#[verifier::rlimit(30)]
proof fn lemma_writes_group(piece: Seq<char>, g: int)
    ensures
        writes_group(piece, g) <==> piece.len() <= 4 && number(piece, 16) == Some(g),
        writes_group(piece, g) ==> 0 <= g <= 0xffff && !piece.contains(':') && !piece.contains('.'),
{
    assert forall|c: char|
        (#[trigger] hex_value(c) >= 0) == (digit(c) is Some) && (digit(c) is Some ==> digit(c)->0
            == hex_value(c) && hex_value(c) < 16) by {}
    if 1 <= piece.len() <= 4 {
        reveal_with_fuel(number, 5);
        let p1 = piece.drop_last();
        if piece.len() > 1 {
            assert(p1[p1.len() - 1] == piece[piece.len() - 2]);
            let p2 = p1.drop_last();
            if piece.len() > 2 {
                assert(p2[p2.len() - 1] == piece[piece.len() - 3]);
                let p3 = p2.drop_last();
                if piece.len() > 3 {
                    assert(p3[p3.len() - 1] == piece[0]);
                }
            }
        }
        assert(hex_value(piece[piece.len() - 1]) == hex_value(piece.last()));
        if forall|i: int| 0 <= i < piece.len() ==> hex_value(#[trigger] piece[i]) >= 0 {
        } else {
            let i = choose|i: int| 0 <= i < piece.len() && hex_value(#[trigger] piece[i]) < 0;
            assert(digit(piece[i]) is None);
            lemma_no_number(piece, 16, i);
        }
        if writes_group(piece, g) {
            assert forall|i: int| 0 <= i < piece.len() implies piece[i] != ':' && piece[i] != '.' by {
                assert(hex_value(piece[i]) >= 0);
            }
        }
    }
}

/// A decimal number without zeros in front is the numeral of its number.
proof fn lemma_decimal_is_numeral(text: Seq<char>)
    requires
        number(text, 10) is Some,
        text.len() > 1 ==> text[0] != '0',
    ensures
        text == numeral(number(text, 10)->0, 10),
        number(text, 10)->0 >= 0,
        text[0] != '0' ==> number(text, 10)->0 > 0,
    decreases text.len(),
{
    let last = digit(text.last())->0;
    assert(text.last() == digit_char(last));
    if text.len() == 1 {
        assert(text =~= seq![digit_char(last)]);
    } else {
        let rest = text.drop_last();
        assert(rest[0] == text[0]);
        lemma_decimal_is_numeral(rest);
        let n = number(rest, 10)->0;
        assert((n * 10 + last) / 10 == n && (n * 10 + last) % 10 == last);
        assert(text =~= rest.push(text.last()));
    }
}

/// A text is an IPv4 address in the one way in which that is written.
pub proof fn ipv4_is_read_as_written(text: Seq<char>, n: int)
    ensures
        ipv4(text) == Some(n) <==> 0 <= n <= u32::MAX && text == ipv4_text(n),
{
    if ipv4(text) == Some(n) {
        let parts = split_on(text, '.');
        ipv4_fits(text);
        pieces_make_the_text(text, '.');
        let a = ipv4_byte(parts[0])->0;
        let b = ipv4_byte(parts[1])->0;
        let c = ipv4_byte(parts[2])->0;
        let d = ipv4_byte(parts[3])->0;
        lemma_decimal_is_numeral(parts[0]);
        lemma_decimal_is_numeral(parts[1]);
        lemma_decimal_is_numeral(parts[2]);
        lemma_decimal_is_numeral(parts[3]);
        assert(n == ((a * 256 + b) * 256 + c) * 256 + d);
        lemma_ipv4_bytes_of(a, b, c, d);
        assert(ipv4_bytes(n) =~= seq![a, b, c, d]);
        assert(parts =~= ipv4_bytes(n).map_values(|b: int| numeral(b, 10)));
    }
    if 0 <= n <= u32::MAX && text == ipv4_text(n) {
        lemma_ipv4_text(n);
    }
}

/// The bytes of a number that is made of four bytes.
proof fn lemma_ipv4_bytes_of(a: int, b: int, c: int, d: int)
    requires
        0 <= a <= 255,
        0 <= b <= 255,
        0 <= c <= 255,
        0 <= d <= 255,
    ensures
        ipv4_bytes(((a * 256 + b) * 256 + c) * 256 + d) == seq![a, b, c, d],
{
    let x = a * 256 + b;
    let y = x * 256 + c;
    let n = y * 256 + d;
    assert(n / 256 == y && n % 256 == d);
    assert(y / 256 == x && y % 256 == c);
    assert(x / 256 == a && x % 256 == b);
    assert(n / 65536 == x);
    assert(n / 16777216 == a);
    assert(ipv4_bytes(n) =~= seq![a, b, c, d]);
}

/// The groups of a number that is made of groups are those.
proof fn lemma_groups_of_number(all: Seq<int>)
    requires
        are_16_bits(all),
    ensures
        number_groups(groups_number(all), all.len()) == all,
        groups_number(all) >= 0,
    decreases all.len(),
{
    if all.len() > 0 {
        let rest = all.drop_last();
        assert forall|i: int| 0 <= i < rest.len() implies 0 <= #[trigger] rest[i] <= 0xffff by {
            assert(rest[i] == all[i]);
        }
        lemma_groups_of_number(rest);
        let n = groups_number(rest);
        let last = all[all.len() - 1];
        assert((n * 65536 + last) / 65536 == n && (n * 65536 + last) % 65536 == last);
        assert(all =~= rest.push(last));
    } else {
        assert(number_groups(groups_number(all), 0) =~= all);
    }
}

/// Pieces are read as groups exactly where they write them.
#[verifier::spinoff_prover]
#[verifier::rlimit(30)]
proof fn lemma_pieces_write(pieces: Seq<Seq<char>>, all: Seq<int>, ipv4_too: bool)
    ensures
        pieces_groups(pieces, ipv4_too) == Some(all) <==> {
            ||| write_groups(pieces, all)
            ||| ipv4_too && exists|n: int| #[trigger] write_groups_and_ipv4(pieces, all, n)
        },
    decreases pieces.len(),
{
    if pieces.len() == 0 {
        assert(pieces_groups(pieces, ipv4_too) == Some(Seq::<int>::empty()));
        if all.len() == 0 {
            assert(all =~= Seq::<int>::empty());
        }
    } else {
        let rest = pieces.drop_last();
        let last = pieces[pieces.len() - 1];
        let plain = pieces_groups(rest, false);
        if pieces_groups(pieces, ipv4_too) == Some(all) {
            let before = plain->0;
            lemma_pieces_write(rest, before, false);
            assert forall|i: int| 0 <= i < rest.len() implies writes_group(
                #[trigger] pieces[i],
                before[i],
            ) by {
                assert(rest[i] == pieces[i]);
            }
            if number(last, 16) is Some && last.len() <= 4 {
                let g = number(last, 16)->0;
                lemma_writes_group(last, g);
                assert(all == before + seq![g]);
                assert(write_groups(pieces, all));
            } else {
                let n = ipv4(last)->0;
                ipv4_is_read_as_written(last, n);
                assert(all == before + seq![n / 65536, n % 65536]);
                assert(write_groups_and_ipv4(pieces, all, n));
            }
        }
        if write_groups(pieces, all) {
            let before = all.drop_last();
            assert forall|i: int| 0 <= i < rest.len() implies writes_group(
                #[trigger] rest[i],
                before[i],
            ) by {
                assert(writes_group(pieces[i], all[i]));
            }
            assert(write_groups(rest, before));
            lemma_pieces_write(rest, before, false);
            assert(writes_group(last, all[all.len() - 1]));
            lemma_writes_group(last, all[all.len() - 1]);
            assert(before + seq![all[all.len() - 1]] =~= all);
        }
        if ipv4_too && exists|n: int| #[trigger] write_groups_and_ipv4(pieces, all, n) {
            let n = choose|n: int| #[trigger] write_groups_and_ipv4(pieces, all, n);
            let before = all.take(all.len() - 2);
            assert forall|i: int| 0 <= i < rest.len() implies writes_group(
                #[trigger] rest[i],
                before[i],
            ) by {
                assert(writes_group(pieces[i], all[i]));
            }
            assert(write_groups(rest, before));
            lemma_pieces_write(rest, before, false);
            ipv4_is_read_as_written(last, n);
            lemma_ipv4_text(n);
            let dot = choose|i: int| 0 <= i < last.len() && last[i] == '.';
            lemma_no_number(last, 16, dot);
            assert(before + seq![n / 65536, n % 65536] =~= all);
        }
    }
}

/// What is joined of pieces without colons has no two colons together, and none at its end.
proof fn lemma_joined_has_no_two_colons(pieces: Seq<Seq<char>>)
    requires
        forall|i: int|
            0 <= i < pieces.len() ==> (#[trigger] pieces[i]).len() > 0 && !pieces[i].contains(':'),
    ensures
        forall|i: int| !double_colon_at(joined(pieces, ':'), i),
        pieces.len() > 0 ==> joined(pieces, ':').len() > 0 && joined(pieces, ':').last() != ':',
        pieces.len() > 1 ==> joined(pieces, ':').contains(':'),
    decreases pieces.len(),
{
    let text = joined(pieces, ':');
    if pieces.len() > 0 {
        let last = pieces[pieces.len() - 1];
        assert forall|i: int| 0 <= i < last.len() implies last[i] != ':' by {
            assert(last.contains(last[i]));
        }
        if pieces.len() > 1 {
            let rest = pieces.drop_last();
            assert forall|i: int| 0 <= i < rest.len() implies (#[trigger] rest[i]).len() > 0
                && !rest[i].contains(':') by {
                assert(rest[i] == pieces[i]);
            }
            lemma_joined_has_no_two_colons(rest);
            let before = joined(rest, ':');
            let at = before.len() as int;
            assert(text == before.push(':') + last);
            assert(text[at] == ':');
            assert(text.last() == last.last());
            assert forall|i: int| !double_colon_at(text, i) by {
                if double_colon_at(text, i) {
                    if i + 1 < at {
                        assert(double_colon_at(before, i));
                    } else if i + 1 == at {
                        assert(text[i] == before.last());
                    } else {
                        assert(text[i + 1] == last[i - at]);
                    }
                }
            }
        }
    }
}

/// Text is read as groups exactly where it writes them.
#[verifier::spinoff_prover]
#[verifier::rlimit(30)]
proof fn lemma_text_writes(text: Seq<char>, all: Seq<int>, ipv4_too: bool)
    ensures
        groups(text, ipv4_too) == Some(all) <==> text_writes_groups(text, all, ipv4_too),
        text_writes_groups(text, all, ipv4_too) ==> (forall|i: int| !double_colon_at(text, i)) && (
        text.len() > 0 ==> text.last() != ':') && (all.len() > 2 ==> text.contains(':')),
{
    if groups(text, ipv4_too) == Some(all) {
        if text.len() == 0 {
            let none = Seq::<Seq<char>>::empty();
            assert(write_groups(none, all));
            assert(joined(none, ':') =~= text);
        } else {
            let pieces = split_on(text, ':');
            pieces_make_the_text(text, ':');
            lemma_pieces_write(pieces, all, ipv4_too);
        }
    }
    if text_writes_groups(text, all, ipv4_too) {
        let plain = exists|pieces: Seq<Seq<char>>| #[trigger]
            write_groups(pieces, all) && text == joined(pieces, ':');
        let pieces = if plain {
            choose|pieces: Seq<Seq<char>>| #[trigger]
                write_groups(pieces, all) && text == joined(pieces, ':')
        } else {
            let (pieces, n) = choose|pieces: Seq<Seq<char>>, n: int| #[trigger]
                write_groups_and_ipv4(pieces, all, n) && text == joined(pieces, ':');
            pieces
        };
        assert forall|i: int| 0 <= i < pieces.len() implies (#[trigger] pieces[i]).len() > 0
            && !pieces[i].contains(':') by {
            if plain || i < pieces.len() - 1 {
                assert(writes_group(pieces[i], all[i]));
                lemma_writes_group(pieces[i], all[i]);
            } else {
                let n = choose|n: int| #[trigger] write_groups_and_ipv4(pieces, all, n);
                lemma_ipv4_text(n);
            }
        }
        lemma_joined_has_no_two_colons(pieces);
        lemma_pieces_write(pieces, all, ipv4_too);
        if pieces.len() > 0 {
            joined_pieces_are_split(pieces, ':');
        } else {
            assert(all =~= Seq::<int>::empty());
        }
    }
}

/// What is read as the groups of an IPv6 address with two colons together writes them.
#[verifier::spinoff_prover]
#[verifier::rlimit(30)]
proof fn lemma_shortened_is_written(text: Seq<char>, all: Seq<int>)
    requires
        ipv6_groups(text) == Some(all),
        exists|i: int| double_colon_at(text, i),
    ensures
        writes_ipv6(text, all),
{
    lemma_first_double_colon(text);
    let i = choose|i: int| first_double_colon(text, i);
    let head = text.take(i);
    let tail = text.skip(i + 2);
    let a = groups(head, false)->0;
    let b = groups(tail, true)->0;
    lemma_text_writes(head, a, false);
    lemma_text_writes(tail, b, true);
    let from = a.len() as int;
    let to = 8 - b.len();
    assert(all == a + Seq::new((to - from) as nat, |j: int| 0int) + b);
    assert(all.take(from) =~= a);
    assert(all.skip(to) =~= b);
    assert(text =~= head + seq![':', ':'] + tail);
    assert(zeros_at(all, from, to));
    assert(writes_shortened(text, all, head, tail, from, to));
}

/// What writes the groups of an IPv6 address with two colons together is read as them.
#[verifier::spinoff_prover]
#[verifier::rlimit(30)]
proof fn lemma_shortened_is_read(
    text: Seq<char>,
    all: Seq<int>,
    head: Seq<char>,
    tail: Seq<char>,
    from: int,
    to: int,
)
    requires
        all.len() == 8,
        writes_shortened(text, all, head, tail, from, to),
    ensures
        ipv6_groups(text) == Some(all),
        text.contains(':'),
{
    let a = all.take(from);
    let b = all.skip(to);
    lemma_text_writes(head, a, false);
    lemma_text_writes(tail, b, true);
    lemma_two_colons(head, tail);
    assert(a + Seq::new((8 - a.len() - b.len()) as nat, |j: int| 0int) + b =~= all);
}

/// Text is read as the groups of an IPv6 address exactly where it writes them.
#[verifier::spinoff_prover]
#[verifier::rlimit(30)]
proof fn lemma_ipv6_is_read(text: Seq<char>, all: Seq<int>)
    ensures
        ipv6_groups(text) == Some(all) <==> writes_ipv6(text, all),
        writes_ipv6(text, all) ==> text.contains(':'),
{
    if ipv6_groups(text) == Some(all) {
        if exists|i: int| double_colon_at(text, i) {
            lemma_shortened_is_written(text, all);
        } else {
            lemma_text_writes(text, all, true);
        }
    }
    if writes_ipv6(text, all) {
        if text_writes_groups(text, all, true) {
            lemma_text_writes(text, all, true);
        } else {
            let (head, tail, from, to) = choose|
                head: Seq<char>,
                tail: Seq<char>,
                from: int,
                to: int,
            | #[trigger] writes_shortened(text, all, head, tail, from, to);
            lemma_shortened_is_read(text, all, head, tail, from, to);
        }
    }
}

/// Where two colons stand together, some do so first.
proof fn lemma_first_double_colon(text: Seq<char>)
    requires
        exists|i: int| double_colon_at(text, i),
    ensures
        exists|i: int| first_double_colon(text, i),
{
    let i = choose|i: int| double_colon_at(text, i);
    lemma_first_double_colon_before(text, i);
}

proof fn lemma_first_double_colon_before(text: Seq<char>, i: int)
    requires
        double_colon_at(text, i),
    ensures
        exists|i: int| first_double_colon(text, i),
    decreases i,
{
    if forall|j: int| 0 <= j < i ==> !double_colon_at(text, j) {
        assert(first_double_colon(text, i));
    } else {
        let j = choose|j: int| 0 <= j < i && double_colon_at(text, j);
        lemma_first_double_colon_before(text, j);
    }
}

/// A text is read as an address exactly where it writes that address.
pub proof fn address_is_read_as_written(text: Seq<char>, ip: IpAddr)
    ensures
        ip_addr(text) == Some(ip) <==> writes(text, ip),
{
    match ip {
        IpAddr::V4(n) => {
            ipv4_is_read_as_written(text, n as int);
            if ip_addr(text) == Some(ip) {
                let m = ipv4(text)->0;
                ipv4_fits(text);
                ipv4_is_read_as_written(text, m);
            }
        },
        IpAddr::V6(n) => {
            let all = number_groups(n as int, 8);
            lemma_eight_groups(n);
            lemma_ipv6_is_read(text, all);
            if ip_addr(text) == Some(ip) {
                let found = ipv6_groups(text)->0;
                ipv6_fits(text);
                lemma_groups_of_number(found);
            }
            if writes(text, ip) {
                lemma_no_ipv4(text);
            }
        },
    }
}

/// `parse_ip_addr` gives an address exactly for the texts that write it.
pub proof fn parsed_address_is_the_written_one(text: &str, ip: IpAddr, r: Option<IpAddr>)
    requires
        call_ensures(parse_ip_addr, (text,), r),
    ensures
        r == Some(ip) <==> writes(text@, ip),
{
    address_is_read_as_written(text@, ip);
}

/// A setting gives an address exactly where it writes that, white space around it aside; and what is
/// neither blank nor writes an address is an error that holds it.
pub proof fn bind_address_is_the_written_one(
    value: &str,
    before: Seq<char>,
    text: Seq<char>,
    after: Seq<char>,
    r: Result<Option<IpAddr>, BindAddressError>,
)
    requires
        call_ensures(parse_bind_address, (value,), r),
        value@ == before + text + after,
        is_blank(before),
        is_tight(text),
        is_blank(after),
        text.len() > 0,
    ensures
        forall|ip: IpAddr| #[trigger] writes(text, ip) ==> r is Ok && r->Ok_0 == Some(ip),
        r is Ok ==> r->Ok_0 is Some && writes(text, r->Ok_0->0),
        r is Err ==> r->Err_0.address@ == text,
{
    only_white_space_is_trimmed(before, text, after);
    assert forall|ip: IpAddr| #[trigger] writes(text, ip) implies r is Ok && r->Ok_0 == Some(ip) by {
        address_is_read_as_written(text, ip);
    }
    if r is Ok {
        address_is_read_as_written(text, r->Ok_0->0);
    }
}

}
