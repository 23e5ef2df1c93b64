//! News of later releases.

use vstd::prelude::*;

use crate::text::{split, split_has_a_piece, split_on, texts};

verus! {

/// The release that the address `url` of its page names: what follows the last slash.
pub fn release_of(url: &str) -> (r: String)
    ensures
        r@ == split_on(url@, '/').last(),
{
    let parts: Vec<String> = split(url, '/');
    let last: usize = parts.len() - 1;
    assert(texts(parts@).last() == parts@[last as int]@);
    parts[last].clone()
}

/// The release that is announced: the latest one, where its number is above that of the one that
/// runs.
pub fn announced_release(latest: String, latest_number: i64, own_number: i64) -> (r: Option<String>)
    ensures
        latest_number > own_number ==> r is Some && r->0@ == latest@,
        latest_number <= own_number ==> r is None,
{
    if latest_number > own_number {
        Some(latest)
    } else {
        None
    }
}

/// The release that an address names has no slash, and the address is what stands before it, a
/// slash and the release, or the release alone.
pub proof fn release_is_the_end(url: Seq<char>)
    ensures
        !split_on(url, '/').last().contains('/'),
        split_on(url, '/').last() == url || exists|before: Seq<char>|
            url == #[trigger] before.push('/') + split_on(url, '/').last(),
    decreases url.len(),
{
    if url.len() > 0 {
        let rest = url.drop_last();
        release_is_the_end(rest);
        let end = split_on(rest, '/').last();
        split_has_a_piece(rest, '/');
        if url.last() == '/' {
            assert(url =~= rest.push('/') + Seq::<char>::empty());
        } else {
            assert(split_on(url, '/').last() == end.push(url.last()));
            if end == rest {
                assert(end.push(url.last()) =~= url);
            } else {
                let before = choose|before: Seq<char>| rest == #[trigger] before.push('/') + end;
                assert(url =~= rest.push(url.last()));
                assert(rest.push(url.last()) =~= before.push('/') + end.push(url.last()));
            }
        }
    }
}

/// The release is all that follows the last slash of the address, or all of an address without one.
pub proof fn release_follows_the_last_slash(url: &str, before: Seq<char>, end: Seq<char>, r: String)
    requires
        call_ensures(release_of, (url,), r),
        !end.contains('/'),
        url@ == end || url@ == before.push('/') + end,
    ensures
        r@ == end,
{
    release_is_the_end(url@);
    let last = split_on(url@, '/').last();
    if url@ == end {
        if last != url@ {
            let b = choose|b: Seq<char>| url@ == #[trigger] b.push('/') + last;
            assert(url@[b.len() as int] == '/');
            assert(url@.contains(url@[b.len() as int]));
        }
    } else {
        assert(url@[before.len() as int] == '/');
        assert(url@.contains(url@[before.len() as int]));
        let b = choose|b: Seq<char>| url@ == #[trigger] b.push('/') + last;
        assert(url@[b.len() as int] == '/');
        if b.len() < before.len() {
            let at = before.len() - b.len() - 1;
            assert(last[at] == url@[before.len() as int]);
            assert(last.contains(last[at]));
        } else if b.len() > before.len() {
            let at = b.len() - before.len() - 1;
            assert(end[at] == url@[b.len() as int]);
            assert(end.contains(end[at]));
        }
        assert(b.len() == before.len());
        assert(last =~= url@.skip(b.len() as int + 1));
        assert(end =~= url@.skip(b.len() as int + 1));
    }
}

/// The latest release is announced, as it is, exactly where its number is above the own one.
pub proof fn later_release_is_announced(
    latest: String,
    latest_number: i64,
    own_number: i64,
    r: Option<String>,
)
    requires
        call_ensures(announced_release, (latest, latest_number, own_number), r),
    ensures
        r is Some <==> own_number < latest_number,
        r is Some ==> r->0@ == latest@,
{
}

}
