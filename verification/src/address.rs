//! Internet addresses and how they are written.

use vstd::prelude::*;

use crate::text::{characters, split, split_on, text_of, texts};

verus! {

/// An internet address, by its number: the first byte, or group, is the most significant.
#[derive(Clone, Copy, PartialEq, Eq, Structural, Debug)]
pub enum IpAddr {
    V4(u32),
    V6(u128),
}

/// An internet address and a port.
#[derive(Clone, Copy, PartialEq, Eq, Structural, Debug)]
pub struct SocketAddr {
    pub ip: IpAddr,
    pub port: u16,
}

/// The number of 127.0.0.1, at which a host reaches itself.
pub const IPV4_LOCALHOST: u32 = 0x7f00_0001;

impl IpAddr {
    /// Whether the address stands for all addresses of the host: 0.0.0.0 or ::.
    pub open spec fn unspecified(self) -> bool {
        self == IpAddr::V4(0) || self == IpAddr::V6(0)
    }

    /// Whether the address stands for all addresses of the host.
    pub fn is_unspecified(&self) -> (r: bool)
        ensures
            r == self.unspecified(),
    {
        match *self {
            IpAddr::V4(n) => n == 0,
            IpAddr::V6(n) => n == 0,
        }
    }
}

/// The value of the digit `c` in base 16.
pub open spec fn digit(c: char) -> Option<int> {
    if '0' <= c <= '9' {
        Some(c as int - '0' as int)
    } else if 'a' <= c <= 'f' {
        Some(c as int - 'a' as int + 10)
    } else if 'A' <= c <= 'F' {
        Some(c as int - 'A' as int + 10)
    } else {
        None
    }
}

/// The number that `text` is in base `base`, at most 16; no number, where it has none or other
/// characters than digits.
pub open spec fn number(text: Seq<char>, base: int) -> Option<int>
    decreases text.len(),
{
    if text.len() == 0 {
        None
    } else {
        match digit(text.last()) {
            Some(last) if last < base => if text.len() == 1 {
                Some(last)
            } else {
                match number(text.drop_last(), base) {
                    Some(before) => Some(before * base + last),
                    None => None,
                }
            },
            _ => None,
        }
    }
}

/// One byte of an IPv4 address: up to three decimal digits, the first of several not 0.
pub open spec fn ipv4_byte(text: Seq<char>) -> Option<int> {
    match number(text, 10) {
        Some(n) if n <= 255 && text.len() <= 3 && (text.len() > 1 ==> text[0] != '0') => Some(n),
        _ => None,
    }
}

/// The IPv4 address that `text` writes: four bytes with dots between them.
pub open spec fn ipv4(text: Seq<char>) -> Option<int> {
    let parts = split_on(text, '.');
    if parts.len() == 4 {
        match (ipv4_byte(parts[0]), ipv4_byte(parts[1]), ipv4_byte(parts[2]), ipv4_byte(parts[3])) {
            (Some(a), Some(b), Some(c), Some(d)) => Some(((a * 256 + b) * 256 + c) * 256 + d),
            _ => None,
        }
    } else {
        None
    }
}

/// The 16-bit groups of an IPv6 address that one piece between colons writes: one of up to four
/// hexadecimal digits, or two as an IPv4 address, where that may be.
pub open spec fn piece_groups(piece: Seq<char>, ipv4_too: bool) -> Option<Seq<int>> {
    match number(piece, 16) {
        Some(n) if piece.len() <= 4 => Some(seq![n]),
        _ => match ipv4(piece) {
            Some(n) if ipv4_too => Some(seq![n / 65536, n % 65536]),
            _ => None,
        },
    }
}

/// The groups that several pieces write; only the last may be an IPv4 address.
pub open spec fn pieces_groups(pieces: Seq<Seq<char>>, ipv4_too: bool) -> Option<Seq<int>>
    decreases pieces.len(),
{
    if pieces.len() == 0 {
        Some(Seq::empty())
    } else {
        match (
            pieces_groups(pieces.drop_last(), false),
            piece_groups(pieces.last(), ipv4_too),
        ) {
            (Some(before), Some(last)) => Some(before + last),
            _ => None,
        }
    }
}

/// The groups that `text` writes, with colons between them; none, where it is empty.
pub open spec fn groups(text: Seq<char>, ipv4_too: bool) -> Option<Seq<int>> {
    if text.len() == 0 {
        Some(Seq::empty())
    } else {
        pieces_groups(split_on(text, ':'), ipv4_too)
    }
}

/// Whether two colons stand at `i` in `text`.
pub open spec fn double_colon_at(text: Seq<char>, i: int) -> bool {
    0 <= i < text.len() - 1 && text[i] == ':' && text[i + 1] == ':'
}

/// Whether the first two colons that stand together in `text` stand at `i`.
pub open spec fn first_double_colon(text: Seq<char>, i: int) -> bool {
    double_colon_at(text, i) && forall|j: int| 0 <= j < i ==> !double_colon_at(text, j)
}

/// The groups of the IPv6 address that `text` writes: eight of them, or fewer where two colons
/// stand for one or more groups of 0.
pub open spec fn ipv6_groups(text: Seq<char>) -> Option<Seq<int>> {
    if exists|i: int| double_colon_at(text, i) {
        let i = choose|i: int| first_double_colon(text, i);
        match (groups(text.take(i), false), groups(text.skip(i + 2), true)) {
            (Some(head), Some(tail)) if head.len() + tail.len() < 8 => Some(
                head + Seq::new((8 - head.len() - tail.len()) as nat, |j: int| 0int) + tail,
            ),
            _ => None,
        }
    } else {
        match groups(text, true) {
            Some(all) if all.len() == 8 => Some(all),
            _ => None,
        }
    }
}

/// The number that 16-bit groups make.
pub open spec fn groups_number(groups: Seq<int>) -> int
    decreases groups.len(),
{
    if groups.len() == 0 {
        0
    } else {
        groups_number(groups.drop_last()) * 65536 + groups.last()
    }
}

/// The address that `text` writes.
pub open spec fn ip_addr(text: Seq<char>) -> Option<IpAddr> {
    match ipv4(text) {
        Some(n) => Some(IpAddr::V4(n as u32)),
        None => match ipv6_groups(text) {
            Some(all) => Some(IpAddr::V6(groups_number(all) as u128)),
            None => None,
        },
    }
}

/// The value of the digit `c` in base 16.
fn hex_digit(c: char) -> (r: Option<u32>)
    ensures
        match r {
            Some(d) => digit(c) == Some(d as int) && d < 16,
            None => digit(c) is None,
        },
{
    let n: u32 = c as u32;
    if '0' <= c && c <= '9' {
        Some(n - 48)
    } else if 'a' <= c && c <= 'f' {
        Some(n - 97 + 10)
    } else if 'A' <= c && c <= 'F' {
        Some(n - 65 + 10)
    } else {
        None
    }
}

/// A number is not negative, and one of few digits is small.
proof fn lemma_number_bound(text: Seq<char>, base: int)
    requires
        base == 10 || base == 16,
        number(text, base) is Some,
    ensures
        0 <= number(text, base)->0,
        text.len() == 1 ==> number(text, base)->0 < base,
        text.len() == 2 ==> number(text, base)->0 < base * base,
        text.len() == 3 ==> number(text, base)->0 < base * base * base,
        text.len() == 4 ==> number(text, base)->0 < base * base * base * base,
    decreases text.len(),
{
    if text.len() > 1 {
        lemma_number_bound(text.drop_last(), base);
    }
}

/// The number that `chars`, of at most four, are in base 10 or 16.
fn parse_number(chars: &Vec<char>, base: u32) -> (r: Option<u32>)
    requires
        base == 10 || base == 16,
        chars.len() <= 4,
    ensures
        match r {
            Some(n) => number(chars@, base as int) == Some(n as int),
            None => number(chars@, base as int) is None,
        },
{
    if chars.len() == 0 {
        return None;
    }
    let mut value: u32 = 0;
    let mut i: usize = 0;
    while i < chars.len()
        invariant
            base == 10 || base == 16,
            0 < chars.len() <= 4,
            i <= chars.len(),
            i == 0 ==> value == 0,
            i > 0 ==> number(chars@.take(i as int), base as int) == Some(value as int),
        decreases chars.len() - i,
    {
        let ghost whole = chars@.take(i + 1);
        assert(whole.drop_last() == chars@.take(i as int));
        assert(whole.last() == chars@[i as int]);
        proof {
            if i > 0 {
                lemma_number_bound(chars@.take(i as int), base as int);
            }
        }
        match hex_digit(chars[i]) {
            Some(d) => {
                if d >= base {
                    proof {
                        lemma_no_number(chars@, base as int, i as int);
                    }
                    return None;
                }
                value = value * base + d;
            },
            None => {
                proof {
                    lemma_no_number(chars@, base as int, i as int);
                }
                return None;
            },
        }
        i += 1;
        assert(number(whole, base as int) == Some(value as int));
    }
    assert(chars@.take(i as int) == chars@);
    Some(value)
}

/// A text with a character that is no digit is no number.
pub(crate) proof fn lemma_no_number(text: Seq<char>, base: int, i: int)
    requires
        0 <= i < text.len(),
        digit(text[i]) is None || digit(text[i])->0 >= base,
    ensures
        number(text, base) is None,
    decreases text.len(),
{
    if i < text.len() - 1 {
        lemma_no_number(text.drop_last(), base, i);
    }
}

/// One byte of an IPv4 address.
fn parse_ipv4_byte(text: &String) -> (r: Option<u32>)
    ensures
        match r {
            Some(n) => ipv4_byte(text@) == Some(n as int) && n <= 255,
            None => ipv4_byte(text@) is None,
        },
{
    let chars: Vec<char> = characters(text.as_str());
    if chars.len() > 3 || (chars.len() > 1 && chars[0] == '0') {
        return None;
    }
    match parse_number(&chars, 10) {
        Some(n) => {
            if n <= 255 {
                Some(n)
            } else {
                None
            }
        },
        None => None,
    }
}

/// The IPv4 address that `text` writes.
fn parse_ipv4(text: &str) -> (r: Option<u32>)
    ensures
        match r {
            Some(n) => ipv4(text@) == Some(n as int),
            None => ipv4(text@) is None,
        },
{
    let parts: Vec<String> = split(text, '.');
    assert(texts(parts@).len() == parts.len());
    if parts.len() != 4 {
        return None;
    }
    assert(texts(parts@)[0] == parts@[0]@ && texts(parts@)[1] == parts@[1]@ && texts(parts@)[2]
        == parts@[2]@ && texts(parts@)[3] == parts@[3]@);
    match (
        parse_ipv4_byte(&parts[0]),
        parse_ipv4_byte(&parts[1]),
        parse_ipv4_byte(&parts[2]),
        parse_ipv4_byte(&parts[3]),
    ) {
        (Some(a), Some(b), Some(c), Some(d)) => Some(((a * 256 + b) * 256 + c) * 256 + d),
        _ => None,
    }
}

/// The groups of a list, as numbers.
spec fn values(groups: Seq<u16>) -> Seq<int> {
    groups.map_values(|g: u16| g as int)
}

/// Adds the groups that one piece writes.
fn add_piece(groups: &mut Vec<u16>, piece: &String, ipv4_too: bool) -> (r: bool)
    ensures
        r == piece_groups(piece@, ipv4_too) is Some,
        r ==> values(final(groups)@) == values(old(groups)@) + piece_groups(piece@, ipv4_too)->0,
{
    let chars: Vec<char> = characters(piece.as_str());
    if chars.len() <= 4 {
        match parse_number(&chars, 16) {
            Some(n) => {
                proof {
                    lemma_number_bound(chars@, 16);
                }
                let group: u16 = n as u16;
                groups.push(group);
                assert(values(groups@) == values(old(groups)@) + seq![n as int]);
                return true;
            },
            None => {},
        }
    }
    if !ipv4_too {
        return false;
    }
    match parse_ipv4(piece.as_str()) {
        Some(n) => {
            let high: u16 = (n / 65536) as u16;
            let low: u16 = (n % 65536) as u16;
            groups.push(high);
            groups.push(low);
            assert(values(groups@) == values(old(groups)@) + seq![
                n as int / 65536,
                n as int % 65536,
            ]);
            true
        },
        None => false,
    }
}

/// If some of the first pieces write no groups, then neither do all of them.
proof fn lemma_no_groups(pieces: Seq<Seq<char>>, ipv4_too: bool, count: int)
    requires
        0 < count <= pieces.len(),
        pieces_groups(pieces.take(count), count == pieces.len() && ipv4_too) is None,
    ensures
        pieces_groups(pieces, ipv4_too) is None,
    decreases pieces.len(),
{
    if count == pieces.len() {
        assert(pieces.take(count) == pieces);
    } else {
        assert(pieces.drop_last().take(count) == pieces.take(count));
        if count == pieces.len() - 1 {
            assert(pieces.take(count) == pieces.drop_last());
        } else {
            lemma_no_groups(pieces.drop_last(), false, count);
        }
    }
}

/// The groups that the characters `from..to` write.
fn parse_groups(chars: &Vec<char>, from: usize, to: usize, ipv4_too: bool) -> (r: Option<Vec<u16>>)
    requires
        from <= to <= chars.len(),
    ensures
        match r {
            Some(all) => groups(chars@.subrange(from as int, to as int), ipv4_too) == Some(
                values(all@),
            ),
            None => groups(chars@.subrange(from as int, to as int), ipv4_too) is None,
        },
{
    let mut all: Vec<u16> = Vec::new();
    let ghost text = chars@.subrange(from as int, to as int);
    if from == to {
        assert(values(all@) == Seq::<int>::empty());
        return Some(all);
    }
    let owned: String = text_of(chars, from, to);
    let pieces: Vec<String> = split(owned.as_str(), ':');
    let ghost views = texts(pieces@);
    let mut i: usize = 0;
    assert(views.take(0) == Seq::<Seq<char>>::empty());
    assert(values(all@) == Seq::<int>::empty());
    while i < pieces.len()
        invariant
            i <= pieces.len(),
            views == texts(pieces@),
            views == split_on(text, ':'),
            text.len() > 0,
            text == chars@.subrange(from as int, to as int),
            pieces_groups(views.take(i as int), i == pieces.len() && ipv4_too) == Some(
                values(all@),
            ),
        decreases pieces.len() - i,
    {
        let last: bool = i + 1 == pieces.len();
        let ghost some = views.take(i + 1);
        assert(some.drop_last() == views.take(i as int));
        assert(some.last() == pieces@[i as int]@);
        if !add_piece(&mut all, &pieces[i], last && ipv4_too) {
            proof {
                lemma_no_groups(views, ipv4_too, i + 1);
            }
            return None;
        }
        i += 1;
    }
    assert(views.take(i as int) == views);
    Some(all)
}

/// The place of the first two colons that stand together.
fn find_double_colon(chars: &Vec<char>) -> (r: Option<usize>)
    ensures
        match r {
            Some(i) => first_double_colon(chars@, i as int),
            None => forall|i: int| !double_colon_at(chars@, i),
        },
{
    let mut i: usize = 0;
    while i < chars.len() && i + 1 < chars.len()
        invariant
            i <= chars.len(),
            forall|j: int| 0 <= j < i ==> !double_colon_at(chars@, j),
        decreases chars.len() - i,
    {
        if chars[i] == ':' && chars[i + 1] == ':' {
            return Some(i);
        }
        i += 1;
    }
    None
}

/// The groups of the IPv6 address that `chars` write.
fn parse_ipv6_groups(chars: &Vec<char>) -> (r: Option<Vec<u16>>)
    ensures
        match r {
            Some(all) => ipv6_groups(chars@) == Some(values(all@)) && all.len() == 8,
            None => ipv6_groups(chars@) is None,
        },
{
    let len: usize = chars.len();
    match find_double_colon(chars) {
        Some(i) => {
            proof {
                let first = choose|i: int| first_double_colon(chars@, i);
                assert(double_colon_at(chars@, i as int));
                assert(first == i as int);
                assert(chars@.take(i as int) == chars@.subrange(0, i as int));
                assert(chars@.skip(i + 2) == chars@.subrange(i + 2, len as int));
            }
            let head: Vec<u16> = match parse_groups(chars, 0, i, false) {
                Some(head) => head,
                None => return None,
            };
            let tail: Vec<u16> = match parse_groups(chars, i + 2, len, true) {
                Some(tail) => tail,
                None => return None,
            };
            if head.len() >= 8 || tail.len() >= 8 || head.len() + tail.len() >= 8 {
                return None;
            }
            let mut all: Vec<u16> = Vec::new();
            let zeros: usize = 8 - head.len() - tail.len();
            let mut k: usize = 0;
            while k < 8
                invariant
                    k <= 8,
                    zeros == 8 - head.len() - tail.len(),
                    head.len() + tail.len() < 8,
                    all.len() == k,
                    forall|j: int|
                        0 <= j < k ==> #[trigger] all@[j] == (if j < head.len() {
                            head@[j]
                        } else if j < head.len() + zeros {
                            0
                        } else {
                            tail@[j - head.len() - zeros]
                        }),
                decreases 8 - k,
            {
                if k < head.len() {
                    all.push(head[k]);
                } else if k < head.len() + zeros {
                    all.push(0);
                } else {
                    all.push(tail[k - head.len() - zeros]);
                }
                k += 1;
            }
            assert(values(all@) =~= values(head@) + Seq::new(zeros as nat, |j: int| 0int) + values(
                tail@,
            ));
            Some(all)
        },
        None => {
            assert(chars@.subrange(0, len as int) == chars@);
            match parse_groups(chars, 0, len, true) {
                Some(all) => if all.len() == 8 {
                    Some(all)
                } else {
                    None
                },
                None => None,
            }
        },
    }
}

/// The address that `text` writes; nothing, where it writes none.
pub fn parse_ip_addr(text: &str) -> (r: Option<IpAddr>)
    ensures
        r == ip_addr(text@),
{
    match parse_ipv4(text) {
        Some(n) => return Some(IpAddr::V4(n)),
        None => {},
    }
    let chars: Vec<char> = characters(text);
    match parse_ipv6_groups(&chars) {
        Some(all) => Some(IpAddr::V6(combine(&all))),
        None => None,
    }
}

/// The number that eight groups make.
fn combine(all: &Vec<u16>) -> (r: u128)
    requires
        all.len() == 8,
    ensures
        r == groups_number(values(all@)),
{
    let mut number: u128 = 0;
    let mut i: usize = 0;
    assert(values(all@).take(0) == Seq::<int>::empty());
    while i < 8
        invariant
            i <= 8,
            all.len() == 8,
            number == groups_number(values(all@).take(i as int)),
            number < group_limit(i as int),
        decreases 8 - i,
    {
        assert(values(all@).take(i + 1).drop_last() == values(all@).take(i as int));
        assert(group_limit(i + 1) <= 0x1_0000_0000_0000_0000_0000_0000_0000_0000) by {
            reveal_with_fuel(group_limit, 9);
        }
        number = number * 65536 + all[i] as u128;
        i += 1;
    }
    assert(values(all@).take(8) == values(all@));
    number
}

/// What `count` groups stay below.
spec fn group_limit(count: int) -> int
    decreases count,
{
    if count <= 0 {
        1
    } else {
        group_limit(count - 1) * 65536
    }
}

/// An IPv4 address is a number of 32 bits.
pub proof fn ipv4_fits(text: Seq<char>)
    requires
        ipv4(text) is Some,
    ensures
        0 <= ipv4(text)->0 <= u32::MAX,
{
    let parts = split_on(text, '.');
    lemma_number_bound(parts[0], 10);
    lemma_number_bound(parts[1], 10);
    lemma_number_bound(parts[2], 10);
    lemma_number_bound(parts[3], 10);
}

/// Whether each of `groups` is a number of 16 bits.
pub open spec fn are_groups(groups: Seq<int>) -> bool {
    forall|i: int| 0 <= i < groups.len() ==> 0 <= #[trigger] groups[i] <= u16::MAX
}

proof fn lemma_pieces_are_groups(pieces: Seq<Seq<char>>, ipv4_too: bool)
    requires
        pieces_groups(pieces, ipv4_too) is Some,
    ensures
        are_groups(pieces_groups(pieces, ipv4_too)->0),
    decreases pieces.len(),
{
    if pieces.len() > 0 {
        lemma_pieces_are_groups(pieces.drop_last(), false);
        let piece = pieces.last();
        if number(piece, 16) is Some && piece.len() <= 4 {
            lemma_number_bound(piece, 16);
        } else {
            ipv4_fits(piece);
        }
    }
}

proof fn lemma_groups_number_bound(groups: Seq<int>)
    requires
        are_groups(groups),
    ensures
        0 <= groups_number(groups) < group_limit(groups.len() as int),
    decreases groups.len(),
{
    if groups.len() > 0 {
        assert(are_groups(groups.drop_last()));
        lemma_groups_number_bound(groups.drop_last());
    }
}

/// An IPv6 address has eight groups of 16 bits, and so is a number of 128 bits.
pub proof fn ipv6_fits(text: Seq<char>)
    requires
        ipv6_groups(text) is Some,
    ensures
        ipv6_groups(text)->0.len() == 8,
        are_groups(ipv6_groups(text)->0),
        0 <= groups_number(ipv6_groups(text)->0) <= u128::MAX,
{
    if exists|i: int| double_colon_at(text, i) {
        let i = choose|i: int| first_double_colon(text, i);
        if text.take(i).len() > 0 {
            lemma_pieces_are_groups(split_on(text.take(i), ':'), false);
        }
        if text.skip(i + 2).len() > 0 {
            lemma_pieces_are_groups(split_on(text.skip(i + 2), ':'), true);
        }
    } else if text.len() > 0 {
        lemma_pieces_are_groups(split_on(text, ':'), true);
    }
    lemma_groups_number_bound(ipv6_groups(text)->0);
    assert(group_limit(8) == 0x1_0000_0000_0000_0000_0000_0000_0000_0000) by {
        reveal_with_fuel(group_limit, 9);
    }
}

}
