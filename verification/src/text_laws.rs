//! What holds of the operations on text.

use vstd::prelude::*;

use crate::text::{
    characters, has_char, is_white_space, joined, joined_pieces_are_split, pieces_have_no_separator,
    precedes, replace, same_text, split, split_has_a_piece, split_on, stands_before, text_of, texts,
    trim, trimmed, white_space,
};

verus! {

/// Whether all characters of `text` are white space.
pub open spec fn is_blank(text: Seq<char>) -> bool {
    forall|i: int| 0 <= i < text.len() ==> is_white_space(#[trigger] text[i])
}

/// Whether `text` has no white space at its ends.
pub open spec fn is_tight(text: Seq<char>) -> bool {
    text.len() > 0 ==> !is_white_space(text[0]) && !is_white_space(text[text.len() - 1])
}

/// White space around a text is trimmed, and nothing else.
pub proof fn only_white_space_is_trimmed(before: Seq<char>, text: Seq<char>, after: Seq<char>)
    requires
        is_blank(before),
        is_tight(text),
        is_blank(after),
    ensures
        trimmed(before + text + after) == text,
    decreases before.len() + after.len(), after.len(),
{
    let whole = before + text + after;
    if before.len() > 0 {
        let rest = before.drop_first();
        assert(whole.first() == before[0]);
        assert(whole.drop_first() =~= rest + text + after);
        assert forall|i: int| 0 <= i < rest.len() implies is_white_space(#[trigger] rest[i]) by {
            assert(rest[i] == before[i + 1]);
        }
        only_white_space_is_trimmed(rest, text, after);
    } else if after.len() > 0 {
        if text.len() == 0 {
            assert(whole =~= after + text + before);
            only_white_space_is_trimmed(after, text, before);
        } else {
            let rest = after.drop_last();
            assert(whole.first() == text.first());
            assert(whole.last() == after[after.len() - 1]);
            assert(whole.drop_last() =~= before + text + rest);
            assert forall|i: int| 0 <= i < rest.len() implies is_white_space(
                #[trigger] rest[i],
            ) by {
                assert(rest[i] == after[i]);
            }
            only_white_space_is_trimmed(before, text, rest);
        }
    } else {
        assert(whole =~= text);
    }
}

/// Every text is a trimmed one with white space around it.
pub proof fn trimmed_text_is_the_middle(text: Seq<char>) -> (around: (Seq<char>, Seq<char>))
    ensures
        is_blank(around.0),
        is_blank(around.1),
        is_tight(trimmed(text)),
        text == around.0 + trimmed(text) + around.1,
    decreases text.len(),
{
    if text.len() > 0 && is_white_space(text.first()) {
        let (before, after) = trimmed_text_is_the_middle(text.drop_first());
        let longer = seq![text.first()] + before;
        let rest = text.drop_first();
        assert(text =~= seq![text.first()] + rest);
        assert(seq![text.first()] + (before + trimmed(rest) + after) =~= longer + trimmed(rest)
            + after);
        assert(is_blank(longer));
        (longer, after)
    } else if text.len() > 0 && is_white_space(text.last()) {
        let (before, after) = trimmed_text_is_the_middle(text.drop_last());
        let longer = after.push(text.last());
        let rest = text.drop_last();
        assert(text =~= rest.push(text.last()));
        assert((before + trimmed(rest) + after).push(text.last()) =~= before + trimmed(rest)
            + longer);
        assert(is_blank(longer));
        (before, longer)
    } else {
        let none = Seq::<char>::empty();
        assert(text =~= none + trimmed(text) + none);
        (none, none)
    }
}

/// `trim` takes the white space off both ends, all of it and nothing else.
pub proof fn trim_takes_white_space_off(
    text: &str,
    before: Seq<char>,
    middle: Seq<char>,
    after: Seq<char>,
    r: String,
)
    requires
        call_ensures(trim, (text,), r),
        text@ == before + middle + after,
        is_blank(before),
        is_tight(middle),
        is_blank(after),
    ensures
        r@ == middle,
{
    only_white_space_is_trimmed(before, middle, after);
}

/// `white_space` tells what `is_white_space` says: tabs, line breaks, blanks and the other spaces of
/// Unicode, but no character that can be seen.
pub proof fn white_space_is_told(c: char, r: bool)
    requires
        call_ensures(white_space, (c,), r),
    ensures
        r == is_white_space(c),
        c == ' ' || c == '\t' || c == '\n' || c == '\r' ==> r,
        0x21 <= c as u32 <= 0x7e ==> !r,
        r <==> '\t' <= c <= '\r' || c == ' ' || c == '\u{85}' || c == '\u{a0}' || c == '\u{1680}'
            || '\u{2000}' <= c <= '\u{200a}' || c == '\u{2028}' || c == '\u{2029}' || c
            == '\u{202f}' || c == '\u{205f}' || c == '\u{3000}',
{
}

/// `characters` and `text_of` are each other's way back.
pub proof fn characters_make_the_text(text: &str, chars: Vec<char>, from: usize, to: usize, r: String)
    requires
        call_ensures(characters, (text,), chars),
        from <= to <= chars@.len(),
        call_ensures(text_of, (&chars, from, to), r),
    ensures
        chars@.len() == text@.len(),
        r@.len() == to - from,
        forall|i: int| 0 <= i < r@.len() ==> #[trigger] r@[i] == text@[from + i],
{
}

/// `has_char` tells whether some character is the one that is looked for.
pub proof fn has_char_finds_it(text: &str, c: char, r: bool)
    requires
        call_ensures(has_char, (text, c), r),
    ensures
        r <==> exists|i: int| 0 <= i < text@.len() && #[trigger] text@[i] == c,
{
    if exists|i: int| 0 <= i < text@.len() && #[trigger] text@[i] == c {
        let i = choose|i: int| 0 <= i < text@.len() && #[trigger] text@[i] == c;
        assert(text@.contains(text@[i]));
    }
}

/// `same_text` tells whether all characters are the same.
pub proof fn same_text_compares_all(a: &str, b: &str, r: bool)
    requires
        call_ensures(same_text, (a, b), r),
    ensures
        r <==> a@.len() == b@.len() && forall|i: int| 0 <= i < a@.len() ==> #[trigger] a@[i] == b@[i],
{
    if a@.len() == b@.len() && forall|i: int| 0 <= i < a@.len() ==> #[trigger] a@[i] == b@[i] {
        assert(a@ =~= b@);
    }
}

/// `replace` changes the one character wherever it stands, and no other.
pub proof fn replace_changes_one_character(text: &str, from: char, to: char, r: String)
    requires
        call_ensures(replace, (text, from, to), r),
    ensures
        r@.len() == text@.len(),
        forall|i: int|
            0 <= i < r@.len() ==> #[trigger] r@[i] == (if text@[i] == from {
                to
            } else {
                text@[i]
            }),
{
}

/// The pieces of a text, joined again, are the text.
pub proof fn pieces_make_the_text(text: Seq<char>, separator: char)
    ensures
        joined(split_on(text, separator), separator) == text,
        split_on(text, separator).len() > 0,
    decreases text.len(),
{
    split_has_a_piece(text, separator);
    if text.len() == 0 {
        assert(split_on(text, separator) =~= seq![Seq::<char>::empty()]);
        assert(text =~= Seq::<char>::empty());
    } else {
        let rest = text.drop_last();
        let before = split_on(rest, separator);
        let all = split_on(text, separator);
        pieces_make_the_text(rest, separator);
        assert(rest.push(text.last()) =~= text);
        if text.last() == separator {
            assert(all.drop_last() =~= before);
            assert(joined(all, separator) =~= rest.push(separator));
        } else {
            let last = before.last().push(text.last());
            assert(all.drop_last() =~= before.drop_last());
            if before.len() == 1 {
                assert(joined(all, separator) =~= rest.push(text.last()));
            } else {
                let head = joined(before.drop_last(), separator).push(separator);
                assert(head + last =~= (head + before.last()).push(text.last()));
            }
        }
    }
}

/// `split` gives the pieces that have no separator and that make the text when they are joined.
/// There is only one such list.
pub proof fn split_gives_the_pieces(text: &str, separator: char, r: Vec<String>)
    requires
        call_ensures(split, (text, separator), r),
    ensures
        r@.len() > 0,
        joined(texts(r@), separator) == text@,
        forall|i: int| 0 <= i < r@.len() ==> !(#[trigger] r@[i])@.contains(separator),
        forall|pieces: Seq<Seq<char>>|
            pieces.len() > 0 && (forall|i: int|
                0 <= i < pieces.len() ==> !(#[trigger] pieces[i]).contains(separator))
                && #[trigger] joined(pieces, separator) == text@ ==> pieces == texts(r@),
{
    pieces_make_the_text(text@, separator);
    pieces_have_no_separator(text@, separator);
    assert forall|i: int| 0 <= i < r@.len() implies !(#[trigger] r@[i])@.contains(separator) by {
        assert(texts(r@)[i] == r@[i]@);
    }
    assert forall|pieces: Seq<Seq<char>>|
        pieces.len() > 0 && (forall|i: int|
            0 <= i < pieces.len() ==> !(#[trigger] pieces[i]).contains(separator))
            && #[trigger] joined(pieces, separator) == text@ implies pieces == texts(r@) by {
        joined_pieces_are_split(pieces, separator);
    }
}

/// A text stands before another where it is its beginning, or where the first character in which
/// they differ comes first.
pub proof fn order_is_that_of_characters(a: Seq<char>, b: Seq<char>, k: int)
    requires
        0 <= k <= a.len(),
        k <= b.len(),
        a.take(k) == b.take(k),
        k == a.len() || k == b.len() || a[k] != b[k],
    ensures
        precedes(a, b) <==> k < b.len() && (k == a.len() || a[k] < b[k]),
    decreases a.len(),
{
    if k > 0 {
        assert(a[0] == a.take(k)[0]);
        assert(b[0] == b.take(k)[0]);
        assert(a.drop_first().take(k - 1) =~= a.take(k).drop_first());
        assert(b.drop_first().take(k - 1) =~= b.take(k).drop_first());
        order_is_that_of_characters(a.drop_first(), b.drop_first(), k - 1);
    }
}

/// `stands_before` goes by the first character in which two texts differ.
pub proof fn stands_before_goes_by_characters(a: &str, b: &str, k: int, r: bool)
    requires
        call_ensures(stands_before, (a, b), r),
        0 <= k <= a@.len(),
        k <= b@.len(),
        a@.take(k) == b@.take(k),
        k == a@.len() || k == b@.len() || a@[k] != b@[k],
    ensures
        r <==> k < b@.len() && (k == a@.len() || a@[k] < b@[k]),
{
    order_is_that_of_characters(a@, b@, k);
}

}
