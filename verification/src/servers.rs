//! Lists of servers in settings.

use vstd::prelude::*;

use crate::text::{
    has_char, joined, joined_pieces_are_split, pieces_have_no_separator, split, split_of_both,
    split_on, texts,
};

verus! {

/// The text by which a server's address is looked up: with port 0 where `host` names none.
pub fn server_lookup(host: &str) -> (r: String)
    ensures
        r@ == (if host@.contains(':') {
            host@
        } else {
            host@ + ":0"@
        }),
{
    if has_char(host, ':') {
        String::from_str(host)
    } else {
        String::from_str(host).concat(":0")
    }
}

/// The address of a server, of those that its lookup found; none, where that failed or found none.
pub fn test_if_valid_server<T: Copy>(found: Option<&Vec<T>>) -> (r: Option<T>)
    ensures
        r == (match found {
            Some(all) if all@.len() > 0 => Some(all@[0]),
            _ => None,
        }),
{
    match found {
        Some(all) => if all.len() > 0 {
            Some(all[0])
        } else {
            None
        },
        None => None,
    }
}

/// The servers in the setting `list`, with commas between them, of which some may be blank.
pub open spec fn listed(list: Seq<char>) -> Seq<Seq<char>> {
    split_on(list, ',').filter(|host: Seq<char>| host.len() > 0)
}

/// Those of `hosts` that are marked as valid.
pub open spec fn valid_ones(hosts: Seq<Seq<char>>, valid: Seq<bool>) -> Seq<Seq<char>>
    decreases hosts.len(),
{
    if hosts.len() == 0 {
        Seq::empty()
    } else {
        let before = valid_ones(hosts.drop_last(), valid);
        if valid[hosts.len() - 1] {
            before.push(hosts.last())
        } else {
            before
        }
    }
}

/// The servers in the setting `list`, which have to be tested.
pub fn listed_servers(list: &str) -> (r: Vec<String>)
    ensures
        texts(r@) == listed(list@),
{
    let hosts: Vec<String> = split(list, ',');
    let mut out: Vec<String> = Vec::new();
    let ghost all = texts(hosts@);
    let ghost named = |host: Seq<char>| host.len() > 0;
    let mut i: usize = 0;
    assert(all.take(0) =~= Seq::<Seq<char>>::empty());
    assert(texts(out@) =~= all.take(0).filter(named)) by {
        reveal(Seq::filter);
    }
    while i < hosts.len()
        invariant
            i <= hosts.len(),
            all == texts(hosts@),
            named == (|host: Seq<char>| host.len() > 0),
            texts(out@) == all.take(i as int).filter(named),
        decreases hosts.len() - i,
    {
        let ghost before = texts(out@);
        assert(all.take(i + 1).drop_last() =~= all.take(i as int));
        assert(all.take(i + 1).last() == hosts@[i as int]@);
        assert(all.take(i + 1).filter(named) == (if hosts@[i as int]@.len() > 0 {
            before.push(hosts@[i as int]@)
        } else {
            before
        })) by {
            reveal(Seq::filter);
        }
        if !hosts[i].as_str().is_empty() {
            out.push(hosts[i].clone());
            assert(texts(out@) =~= before.push(hosts@[i as int]@));
        }
        i += 1;
    }
    assert(all.take(i as int) =~= all);
    out
}

/// The valid servers in the setting `list`, in its order: `valid` tells of each of its servers that
/// is not blank whether it is.
pub fn get_servers(list: &str, valid: &Vec<bool>) -> (r: Vec<String>)
    requires
        valid@.len() == listed(list@).len(),
    ensures
        texts(r@) == valid_ones(listed(list@), valid@),
{
    let hosts: Vec<String> = listed_servers(list);
    let mut out: Vec<String> = Vec::new();
    let ghost all = texts(hosts@);
    let mut i: usize = 0;
    assert(all.take(0) =~= Seq::<Seq<char>>::empty());
    assert(texts(out@) =~= valid_ones(all.take(0), valid@));
    while i < hosts.len()
        invariant
            i <= hosts.len(),
            all == texts(hosts@),
            valid@.len() == hosts.len(),
            texts(out@) == valid_ones(all.take(i as int), valid@),
        decreases hosts.len() - i,
    {
        let ghost before = texts(out@);
        assert(all.take(i + 1).drop_last() =~= all.take(i as int));
        if valid[i] {
            out.push(hosts[i].clone());
            assert(texts(out@) =~= before.push(hosts@[i as int]@));
        }
        i += 1;
    }
    assert(all.take(i as int) =~= all);
    out
}

/// Every server that is given out is in the setting, is valid there and is not blank.
pub proof fn given_servers_are_listed(list: Seq<char>, valid: Seq<bool>, host: Seq<char>)
    requires
        valid.len() == listed(list).len(),
        valid_ones(listed(list), valid).contains(host),
    ensures
        host.len() > 0,
        split_on(list, ',').contains(host),
        exists|i: int| 0 <= i < valid.len() && valid[i] && listed(list)[i] == host,
{
    lemma_valid_ones(listed(list), valid, host);
    let i = choose|i: int| 0 <= i < valid.len() && valid[i] && listed(list)[i] == host;
    let named = |host: Seq<char>| host.len() > 0;
    split_on(list, ',').lemma_filter_pred(named, i);
    split_on(list, ',').lemma_filter_contains_rev(named, host);
}

proof fn lemma_valid_ones(hosts: Seq<Seq<char>>, valid: Seq<bool>, host: Seq<char>)
    requires
        valid.len() >= hosts.len(),
        valid_ones(hosts, valid).contains(host),
    ensures
        exists|i: int| 0 <= i < hosts.len() && valid[i] && hosts[i] == host,
    decreases hosts.len(),
{
    if hosts.len() > 0 {
        let before = valid_ones(hosts.drop_last(), valid);
        let last = hosts.len() - 1;
        if valid[last] && host == hosts[last] {
        } else {
            let k = choose|k: int|
                0 <= k < valid_ones(hosts, valid).len() && valid_ones(hosts, valid)[k] == host;
            assert(before[k] == host);
            lemma_valid_ones(hosts.drop_last(), valid, host);
            let i = choose|i: int|
                0 <= i < last && valid[i] && hosts.drop_last()[i] == host;
            assert(hosts[i] == host);
        }
    }
}

/// Where all servers are valid, all that are not blank are given out, in the order of the setting.
pub proof fn all_valid_servers_are_given(list: Seq<char>, valid: Seq<bool>)
    requires
        valid.len() == listed(list).len(),
        forall|i: int| 0 <= i < valid.len() ==> valid[i],
    ensures
        valid_ones(listed(list), valid) == listed(list),
{
    lemma_all_valid(listed(list), valid);
}

proof fn lemma_all_valid(hosts: Seq<Seq<char>>, valid: Seq<bool>)
    requires
        valid.len() >= hosts.len(),
        forall|i: int| 0 <= i < valid.len() ==> valid[i],
    ensures
        valid_ones(hosts, valid) == hosts,
    decreases hosts.len(),
{
    if hosts.len() > 0 {
        lemma_all_valid(hosts.drop_last(), valid);
        assert(hosts.drop_last().push(hosts.last()) =~= hosts);
    } else {
        assert(valid_ones(hosts, valid) =~= hosts);
    }
}

/// Where a server is valid by what it is, and not by its place in the list, the valid ones are those
/// for which `ok` holds.
pub proof fn valid_servers_are_those_that_are_ok(
    hosts: Seq<Seq<char>>,
    valid: Seq<bool>,
    ok: spec_fn(Seq<char>) -> bool,
)
    requires
        valid.len() >= hosts.len(),
        forall|i: int| 0 <= i < hosts.len() ==> valid[i] == ok(#[trigger] hosts[i]),
    ensures
        valid_ones(hosts, valid) == hosts.filter(ok),
    decreases hosts.len(),
{
    reveal(Seq::filter);
    if hosts.len() > 0 {
        let rest = hosts.drop_last();
        assert forall|i: int| 0 <= i < rest.len() implies valid[i] == ok(#[trigger] rest[i]) by {
            assert(rest[i] == hosts[i]);
        }
        valid_servers_are_those_that_are_ok(rest, valid, ok);
        assert(valid[hosts.len() - 1] == ok(hosts[hosts.len() - 1]));
    }
}

/// The servers that the setting `list` gives, where those are valid for which `ok` holds.
pub open spec fn given(list: Seq<char>, ok: spec_fn(Seq<char>) -> bool) -> Seq<Seq<char>> {
    listed(list).filter(ok)
}

/// Two lists with a comma between them give the servers of the one and then those of the other.
pub proof fn joined_lists_give_both(
    a: Seq<char>,
    b: Seq<char>,
    ok: spec_fn(Seq<char>) -> bool,
)
    ensures
        listed(a.push(',') + b) == listed(a) + listed(b),
        given(a.push(',') + b, ok) == given(a, ok) + given(b, ok),
{
    let named = |host: Seq<char>| host.len() > 0;
    split_of_both(a, b, ',');
    lemma_filter_of_both(split_on(a, ','), split_on(b, ','), named);
    lemma_filter_of_both(listed(a), listed(b), ok);
}

proof fn lemma_filter_of_both(
    a: Seq<Seq<char>>,
    b: Seq<Seq<char>>,
    ok: spec_fn(Seq<char>) -> bool,
)
    ensures
        (a + b).filter(ok) == a.filter(ok) + b.filter(ok),
    decreases b.len(),
{
    reveal(Seq::filter);
    if b.len() == 0 {
        assert(a + b =~= a);
        assert(a.filter(ok) + b.filter(ok) =~= a.filter(ok));
    } else {
        let rest = b.drop_last();
        lemma_filter_of_both(a, rest, ok);
        assert((a + b).drop_last() =~= a + rest);
        assert((a + b).last() == b.last());
        assert((a.filter(ok) + rest.filter(ok)).push(b.last()) =~= a.filter(ok) + rest.filter(
            ok,
        ).push(b.last()));
    }
}

/// A sequence of which all are ok keeps them all.
proof fn lemma_filter_keeps_all(hosts: Seq<Seq<char>>, ok: spec_fn(Seq<char>) -> bool)
    requires
        forall|i: int| 0 <= i < hosts.len() ==> ok(#[trigger] hosts[i]),
    ensures
        hosts.filter(ok) == hosts,
    decreases hosts.len(),
{
    reveal(Seq::filter);
    if hosts.len() > 0 {
        let rest = hosts.drop_last();
        assert forall|i: int| 0 <= i < rest.len() implies ok(#[trigger] rest[i]) by {
            assert(rest[i] == hosts[i]);
        }
        lemma_filter_keeps_all(rest, ok);
        assert(ok(hosts[hosts.len() - 1]));
        assert(rest.push(hosts.last()) =~= hosts);
    } else {
        assert(hosts.filter(ok) =~= hosts);
    }
}

/// The servers that a list gives, with commas between them, are a list that gives the same.
pub proof fn given_servers_are_given_again(list: Seq<char>, ok: spec_fn(Seq<char>) -> bool)
    ensures
        given(joined(given(list, ok), ','), ok) == given(list, ok),
{
    let named = |host: Seq<char>| host.len() > 0;
    let pieces = split_on(list, ',');
    let hosts = given(list, ok);
    let again = joined(hosts, ',');
    pieces_have_no_separator(list, ',');
    assert forall|i: int| 0 <= i < hosts.len() implies ok(#[trigger] hosts[i]) && named(hosts[i])
        && !hosts[i].contains(',') by {
        listed(list).lemma_filter_pred(ok, i);
        listed(list).lemma_filter_contains_rev(ok, hosts[i]);
        let k = choose|k: int| 0 <= k < listed(list).len() && listed(list)[k] == hosts[i];
        pieces.lemma_filter_pred(named, k);
        pieces.lemma_filter_contains_rev(named, hosts[i]);
        let m = choose|m: int| 0 <= m < pieces.len() && pieces[m] == hosts[i];
        assert(!pieces[m].contains(','));
    }
    if hosts.len() == 0 {
        assert(again =~= Seq::<char>::empty());
        assert(listed(again) =~= Seq::<Seq<char>>::empty()) by {
            reveal(Seq::filter);
            reveal_with_fuel(Seq::filter, 3);
            assert(split_on(again, ',') =~= seq![Seq::<char>::empty()]);
            assert(seq![Seq::<char>::empty()].drop_last() =~= Seq::<Seq<char>>::empty());
        }
        assert(given(again, ok) =~= hosts) by {
            reveal(Seq::filter);
        }
    } else {
        joined_pieces_are_split(hosts, ',');
        lemma_filter_keeps_all(hosts, named);
        lemma_filter_keeps_all(hosts, ok);
    }
}

/// No server that is not blank is left out before it is tested: a setting that is one host lists it.
pub proof fn one_host_is_listed(host: Seq<char>)
    requires
        host.len() > 0,
        !host.contains(','),
    ensures
        listed(host) == seq![host],
{
    let pieces = seq![host];
    joined_pieces_are_split(pieces, ',');
    lemma_filter_keeps_all(pieces, |host: Seq<char>| host.len() > 0);
}

/// A blank setting lists no server.
pub proof fn blank_setting_lists_nothing()
    ensures
        listed(Seq::empty()) == Seq::<Seq<char>>::empty(),
{
    reveal_with_fuel(Seq::filter, 3);
    let empty = Seq::<char>::empty();
    assert(split_on(empty, ',') =~= seq![empty]);
    assert(seq![empty].drop_last() =~= Seq::<Seq<char>>::empty());
}

/// Hosts with commas between them are listed one by one: all that are not blank, in their order and
/// as often as they stand there.
pub proof fn hosts_are_listed_one_by_one(list: &str, hosts: Seq<Seq<char>>, r: Vec<String>)
    requires
        call_ensures(listed_servers, (list,), r),
        hosts.len() > 0,
        forall|i: int| 0 <= i < hosts.len() ==> !(#[trigger] hosts[i]).contains(','),
        list@ == joined(hosts, ','),
    ensures
        texts(r@) == hosts.filter(|host: Seq<char>| host.len() > 0),
        (forall|i: int| 0 <= i < hosts.len() ==> (#[trigger] hosts[i]).len() > 0) ==> texts(r@)
            == hosts,
{
    joined_pieces_are_split(hosts, ',');
    if forall|i: int| 0 <= i < hosts.len() ==> (#[trigger] hosts[i]).len() > 0 {
        lemma_filter_keeps_all(hosts, |host: Seq<char>| host.len() > 0);
    }
}

/// Of the servers that are listed, those that are valid are given, in their order and as often as
/// they are listed.
pub proof fn valid_servers_are_given(
    list: &str,
    all: Vec<String>,
    valid: &Vec<bool>,
    ok: spec_fn(Seq<char>) -> bool,
    r: Vec<String>,
)
    requires
        call_ensures(listed_servers, (list,), all),
        valid@.len() == all@.len(),
        forall|i: int| 0 <= i < all@.len() ==> valid@[i] == ok((#[trigger] all@[i])@),
        call_ensures(get_servers, (list, valid), r),
    ensures
        texts(r@) == texts(all@).filter(ok),
        (forall|i: int| 0 <= i < all@.len() ==> #[trigger] valid@[i]) ==> texts(r@) == texts(all@),
{
    let hosts = texts(all@);
    assert forall|i: int| 0 <= i < hosts.len() implies valid@[i] == ok(#[trigger] hosts[i]) by {
        assert(hosts[i] == all@[i]@);
    }
    valid_servers_are_those_that_are_ok(hosts, valid@, ok);
    if forall|i: int| 0 <= i < all@.len() ==> #[trigger] valid@[i] {
        assert forall|i: int| 0 <= i < hosts.len() implies ok(#[trigger] hosts[i]) by {
            assert(valid@[i]);
        }
        lemma_filter_keeps_all(hosts, ok);
    }
}

/// A server is looked up by its name and a port: its own where there is a colon, else 0.
pub proof fn lookup_names_a_port(host: &str, r: String)
    requires
        call_ensures(server_lookup, (host,), r),
    ensures
        r@.contains(':'),
        r@.take(host@.len() as int) == host@,
        host@.contains(':') ==> r@.len() == host@.len(),
        !host@.contains(':') ==> r@.len() == host@.len() + 2 && r@[host@.len() as int] == ':'
            && r@[host@.len() as int + 1] == '0',
{
    reveal_strlit(":0");
    if !host@.contains(':') {
        assert(r@[host@.len() as int] == ':');
        assert(r@.contains(r@[host@.len() as int]));
    }
    assert(r@.take(host@.len() as int) =~= host@);
}

/// A server is valid exactly where its lookup found an address, and has the first that it found.
pub proof fn first_address_is_taken<T: Copy>(found: Option<&Vec<T>>, r: Option<T>)
    requires
        call_ensures(test_if_valid_server::<T>, (found,), r),
    ensures
        r is Some <==> found is Some && found->0@.len() > 0,
        r is Some ==> r->0 == found->0@[0],
{
}

}
