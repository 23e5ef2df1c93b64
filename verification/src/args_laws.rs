//! What holds of arguments, however they are set and looked up.

use vstd::prelude::*;
use vstd::utf8::is_ascii_chars;

use crate::args::{
    all_args, any_alias_gives_a_value, arg_name, arg_value, arg_variable, assigned, file_args,
    first_aliases, get_arg, get_arg_opt, get_arg_or, ini_general, init_args, is_alias,
    is_first_alias, is_stop, last_setting_counts, lemma_ascii_variable, lemma_first_alias_is_one,
    line_args, pair_is_settable, pair_texts, set_arg, set_args, unset_arguments_stay, PairText,
    UnsettableArg,
};
use crate::environment::{is_settable, settable, Environment, Variables};
use crate::text::{ascii_uppercase, lowercase, precedes, replaced, uppercase};

verus! {

/// The character `c` of a name as it is spelled: with capitals or small letters, and with one or the
/// other separator.
pub open spec fn spelled_char(c: char, capital: bool, separator: char) -> char {
    if c == '_' || c == '-' {
        separator
    } else if capital && 'a' <= c <= 'z' {
        (c as int - 32) as char
    } else if !capital && 'A' <= c <= 'Z' {
        (c as int + 32) as char
    } else {
        c
    }
}

/// The name `name` as it is spelled with capitals or small letters, and with one or the other
/// separator.
pub open spec fn spelled(name: Seq<char>, capital: bool, separator: char) -> Seq<char> {
    Seq::new(name.len(), |i: int| spelled_char(name[i], capital, separator))
}

/// The variable that keeps an ASCII argument, and those that are looked up first, are its four
/// regular spellings.
proof fn lemma_spellings(name: Seq<char>)
    requires
        is_ascii_chars(name),
    ensures
        arg_variable(name) == spelled(name, true, '-'),
        first_aliases(arg_variable(name))[0] == spelled(name, true, '-'),
        first_aliases(arg_variable(name))[1] == spelled(name, true, '_'),
        first_aliases(arg_variable(name))[2] == spelled(name, false, '-'),
        first_aliases(arg_variable(name))[3] == spelled(name, false, '_'),
        arg_variable(spelled(name, true, '-')) == arg_variable(name),
        arg_variable(spelled(name, true, '_')) == arg_variable(name),
        arg_variable(spelled(name, false, '-')) == arg_variable(name),
        arg_variable(spelled(name, false, '_')) == arg_variable(name),
{
    let v = arg_variable(name);
    lemma_ascii_variable(name);
    assert(v =~= spelled(name, true, '-'));
    let w = replaced(v, '-', '_');
    assert(w =~= spelled(name, true, '_'));
    assert(is_ascii_chars(w));
    assert(lowercase(v) =~= spelled(name, false, '-'));
    assert(lowercase(w) =~= spelled(name, false, '_'));
    assert(is_ascii_chars(lowercase(v)));
    assert(is_ascii_chars(lowercase(w)));
    lemma_ascii_variable(v);
    lemma_ascii_variable(w);
    lemma_ascii_variable(lowercase(v));
    lemma_ascii_variable(lowercase(w));
    assert(arg_variable(v) =~= v);
    assert(arg_variable(w) =~= v);
    assert(arg_variable(lowercase(v)) =~= v);
    assert(arg_variable(lowercase(w)) =~= v);
}

/// An argument is kept under its name in capitals, with dashes.
pub proof fn argument_is_kept_in_capitals(name: &str, r: String)
    requires
        call_ensures(arg_name, (name,), r),
        is_ascii_chars(name@),
    ensures
        r@ == spelled(name@, true, '-'),
{
    lemma_spellings(name@);
}

/// What is set under a name is listed, as it is written, and gives what the name gives.
proof fn lemma_set_is_listed(env: Variables, name: Seq<char>) -> (written: Seq<char>)
    requires
        env.wf(),
        env.has(name),
    ensures
        env.lists(written),
        env.key(written) == env.key(name),
        env.value(written) == env.value(name),
        arg_variable(written) == arg_variable(name),
{
    let written = env.vars[env.key(name)].0;
    assert(env.key(written) == env.key(name));
    written
}

/// What an argument is found to be is the value of a variable, unchanged: of one of the four that are
/// looked up first, or of one that is listed and is a spelling of it.
pub proof fn value_is_that_of_a_variable(env: Variables, name: Seq<char>) -> (from: Seq<char>)
    requires
        arg_value(env, name) is Some,
    ensures
        env.has(from),
        arg_value(env, name) == Some(env.value(from)),
        first_aliases(arg_variable(name)).contains(from) || (env.lists(from) && arg_variable(from)
            == arg_variable(name)),
        is_ascii_chars(name) ==> arg_variable(from) == arg_variable(name),
{
    let variable = arg_variable(name);
    let aliases = first_aliases(variable);
    if is_ascii_chars(name) {
        lemma_spellings(name);
    }
    if env.has(aliases[0]) {
        assert(aliases.contains(aliases[0]));
        aliases[0]
    } else if env.has(aliases[1]) {
        assert(aliases.contains(aliases[1]));
        aliases[1]
    } else if env.has(aliases[2]) {
        assert(aliases.contains(aliases[2]));
        aliases[2]
    } else if env.has(aliases[3]) {
        assert(aliases.contains(aliases[3]));
        aliases[3]
    } else {
        let from = choose|n: Seq<char>| is_first_alias(env, variable, n);
        assert(is_first_alias(env, variable, from));
        assert(is_alias(env, variable, from));
        from
    }
}

/// Where exactly one variable is a spelling of an argument, the argument has its value.
pub proof fn one_spelling_gives_its_value(env: Variables, name: Seq<char>, only: Seq<char>)
    requires
        env.wf(),
        is_ascii_chars(name),
        env.lists(only),
        arg_variable(only) == arg_variable(name),
        forall|n: Seq<char>| #[trigger]
            env.lists(n) && arg_variable(n) == arg_variable(name) ==> n == only,
    ensures
        arg_value(env, name) == Some(env.value(only)),
{
    any_alias_gives_a_value(env, name, only);
    let from = value_is_that_of_a_variable(env, name);
    let written = lemma_set_is_listed(env, from);
    assert(written == only);
}

/// An argument is looked for in capitals with dashes, in capitals with underscores, in small letters
/// with dashes and in small letters with underscores. Of other spellings the first in order counts.
/// Where there is none, the argument has no value.
pub proof fn spellings_are_tried_in_order(
    env: &Environment,
    name: &str,
    other: Seq<char>,
    r: Option<String>,
)
    requires
        call_ensures(get_arg_opt, (env, name), r),
        is_ascii_chars(name@),
    ensures
        ({
            let first = spelled(name@, true, '-');
            let second = spelled(name@, true, '_');
            let third = spelled(name@, false, '-');
            let fourth = spelled(name@, false, '_');
            let vars = env@;
            if vars.has(first) {
                r is Some && r->0@ == vars.value(first)
            } else if vars.has(second) {
                r is Some && r->0@ == vars.value(second)
            } else if vars.has(third) {
                r is Some && r->0@ == vars.value(third)
            } else if vars.has(fourth) {
                r is Some && r->0@ == vars.value(fourth)
            } else {
                &&& (vars.lists(other) && arg_variable(other) == arg_variable(name@) && forall|
                    n: Seq<char>,
                | #[trigger]
                    vars.lists(n) && arg_variable(n) == arg_variable(name@) && n != other
                        ==> precedes(other, n)) ==> r is Some && r->0@ == vars.value(other)
                &&& (forall|n: Seq<char>| #[trigger]
                    vars.lists(n) ==> arg_variable(n) != arg_variable(name@)) ==> r is None
            }
        }),
{
    let vars = env@;
    let variable = arg_variable(name@);
    lemma_spellings(name@);
    if vars.lists(other) && arg_variable(other) == variable && forall|n: Seq<char>| #[trigger]
        vars.lists(n) && arg_variable(n) == variable && n != other ==> precedes(other, n) {
        assert forall|n: Seq<char>| #[trigger]
            is_alias(vars, variable, n) && n != other implies precedes(other, n) by {
            assert(vars.lists(n));
        }
        assert(is_first_alias(vars, variable, other));
        let pick = choose|n: Seq<char>| is_first_alias(vars, variable, n);
        lemma_first_alias_is_one(vars, variable, other, pick);
    }
    if forall|n: Seq<char>| #[trigger] vars.lists(n) ==> arg_variable(n) != variable {
        assert forall|n: Seq<char>| !is_first_alias(vars, variable, n) by {
            if is_first_alias(vars, variable, n) {
                assert(is_alias(vars, variable, n));
            }
        }
    }
}

/// Whether `text` is `name` with `separator` wherever that has a dash or an underscore.
pub open spec fn is_separated(text: Seq<char>, name: Seq<char>, separator: char) -> bool {
    &&& text.len() == name.len()
    &&& forall|i: int|
        0 <= i < text.len() ==> #[trigger] text[i] == (if name[i] == '_' || name[i] == '-' {
            separator
        } else {
            name[i]
        })
}

/// Whatever its script, an argument is kept under its name in upper case, with dashes.
pub proof fn argument_of_any_script_is_kept(name: &str, capitals: String, r: String)
    requires
        call_ensures(str::to_uppercase, (name,), capitals),
        call_ensures(arg_name, (name,), r),
    ensures
        is_separated(r@, capitals@, '-'),
{
}

/// Whatever its script, an argument is looked for in upper case with dashes and with underscores,
/// then in lower case with dashes and with underscores. The first of these that is set gives its
/// value as it is. Else the first in order counts of those that are kept as the argument is.
pub proof fn argument_of_any_script_is_found(
    env: &Environment,
    name: &str,
    capitals: String,
    names: (&str, &str, String, String),
    other: Seq<char>,
    r: Option<String>,
)
    requires
        call_ensures(str::to_uppercase, (name,), capitals),
        is_separated(names.0@, capitals@, '-'),
        is_separated(names.1@, capitals@, '_'),
        call_ensures(str::to_lowercase, (names.0,), names.2),
        call_ensures(str::to_lowercase, (names.1,), names.3),
        call_ensures(get_arg_opt, (env, name), r),
    ensures
        ({
            let vars = env@;
            let kept = names.0@;
            if vars.has(names.0@) {
                r is Some && r->0@ == vars.value(names.0@)
            } else if vars.has(names.1@) {
                r is Some && r->0@ == vars.value(names.1@)
            } else if vars.has(names.2@) {
                r is Some && r->0@ == vars.value(names.2@)
            } else if vars.has(names.3@) {
                r is Some && r->0@ == vars.value(names.3@)
            } else {
                &&& (vars.lists(other) && arg_variable(other) == kept && forall|n: Seq<char>| #[trigger]
                    vars.lists(n) && arg_variable(n) == kept && n != other ==> precedes(other, n))
                    ==> r is Some && r->0@ == vars.value(other)
                &&& (forall|n: Seq<char>| #[trigger] vars.lists(n) ==> arg_variable(n) != kept)
                    ==> r is None
            }
        }),
{
    let vars = env@;
    let variable = arg_variable(name@);
    assert(variable =~= names.0@);
    assert(replaced(variable, '-', '_') =~= names.1@);
    assert(first_aliases(variable) == seq![names.0@, names.1@, names.2@, names.3@]);
    if vars.lists(other) && arg_variable(other) == variable && forall|n: Seq<char>| #[trigger]
        vars.lists(n) && arg_variable(n) == variable && n != other ==> precedes(other, n) {
        assert forall|n: Seq<char>| #[trigger]
            is_alias(vars, variable, n) && n != other implies precedes(other, n) by {
            assert(vars.lists(n));
        }
        assert(is_first_alias(vars, variable, other));
        let pick = choose|n: Seq<char>| is_first_alias(vars, variable, n);
        lemma_first_alias_is_one(vars, variable, other, pick);
    }
    if forall|n: Seq<char>| #[trigger] vars.lists(n) ==> arg_variable(n) != variable {
        assert forall|n: Seq<char>| !is_first_alias(vars, variable, n) by {
            if is_first_alias(vars, variable, n) {
                assert(is_alias(vars, variable, n));
            }
        }
    }
}

/// What is found of an argument does not depend on how its name is spelled.
pub proof fn spelling_makes_no_difference(
    env: &Environment,
    a: &str,
    b: &str,
    found: Option<String>,
    other: Option<String>,
)
    requires
        call_ensures(get_arg_opt, (env, a), found),
        call_ensures(get_arg_opt, (env, b), other),
        is_ascii_chars(a@),
        is_ascii_chars(b@),
        spelled(a@, true, '-') == spelled(b@, true, '-'),
    ensures
        found is Some <==> other is Some,
        found is Some ==> found->0@ == other->0@,
{
    lemma_spellings(a@);
    lemma_spellings(b@);
}

/// The default counts exactly where an argument has no value; and without one that is the empty text.
pub proof fn default_counts_without_a_value(
    env: &Environment,
    name: &str,
    default: String,
    found: Option<String>,
    or: String,
    plain: String,
)
    requires
        call_ensures(get_arg_opt, (env, name), found),
        call_ensures(get_arg_or, (env, name, default), or),
        call_ensures(get_arg, (env, name), plain),
    ensures
        found is Some ==> or@ == found->0@ && plain@ == found->0@,
        found is None ==> or@ == default@ && plain@.len() == 0,
{
}

/// An argument that was set is found, by each of its spellings, and no other variable has changed.
pub proof fn set_argument_is_found(
    env: &mut Environment,
    name: &str,
    value: &str,
    asked: &str,
    r: Option<String>,
    other: Seq<char>,
)
    requires
        is_ascii_chars(name@),
        is_ascii_chars(asked@),
        spelled(name@, true, '-') == spelled(asked@, true, '-'),
        call_ensures(set_arg, (env, name, value), ()),
        call_ensures(get_arg_opt, (&*final(env), asked), r),
    ensures
        r is Some,
        r->0@ == value@,
        old(env)@.key(other) != old(env)@.key(spelled(name@, true, '-')) ==> final(env)@.has(other)
            == old(env)@.has(other) && final(env)@.value(other) == old(env)@.value(other)
            && final(env)@.lists(other) == old(env)@.lists(other),
{
    lemma_spellings(name@);
    lemma_spellings(asked@);
}

/// Whether no variable can keep this: for lack of a name, for a sign of equality or a zero in the
/// name, or for a zero in the value.
pub open spec fn cannot_be_kept(name: Seq<char>, value: Seq<char>) -> bool {
    ||| name.len() == 0
    ||| exists|i: int| 0 <= i < name.len() && (#[trigger] name[i] == '=' || name[i] == '\0')
    ||| exists|i: int| 0 <= i < value.len() && #[trigger] value[i] == '\0'
}

proof fn lemma_settable(name: Seq<char>, value: Seq<char>)
    ensures
        is_settable(name, value) == !cannot_be_kept(name, value),
{
    if exists|i: int| 0 <= i < name.len() && (#[trigger] name[i] == '=' || name[i] == '\0') {
        let i = choose|i: int|
            0 <= i < name.len() && (#[trigger] name[i] == '=' || name[i] == '\0');
        assert(name.contains(name[i]));
    }
    if exists|i: int| 0 <= i < value.len() && #[trigger] value[i] == '\0' {
        let i = choose|i: int| 0 <= i < value.len() && #[trigger] value[i] == '\0';
        assert(value.contains(value[i]));
    }
}

/// `settable` tells what a variable can keep.
pub proof fn settable_is_what_can_be_kept(name: &str, value: &str, r: bool)
    requires
        call_ensures(settable, (name, value), r),
    ensures
        r == !cannot_be_kept(name@, value@),
{
    lemma_settable(name@, value@);
}

/// The arguments that a file gives by its text: those that rust-ini finds before the first section,
/// where there is such a file and it can be read, the mark at its beginning aside.
pub open spec fn given_by_file(text: Option<&str>) -> Seq<PairText> {
    match text {
        Some(text) => {
            let plain = if text@.len() > 0 && text@[0] == '\u{feff}' {
                text@.skip(1)
            } else {
                text@
            };
            match ini_general(plain) {
                Some(pairs) => pairs,
                None => Seq::empty(),
            }
        },
        None => Seq::empty(),
    }
}

proof fn lemma_file_args(text: Option<&str>)
    ensures
        file_args(
            match text {
                Some(text) => Some(text@),
                None => None,
            },
        ) == given_by_file(text),
{
    if let Some(text) = text {
        if text@.len() > 0 {
            assert(text@.skip(1) =~= text@.drop_first());
        }
    }
}

/// Whether a pair sets the argument `name`, in variables like `env`.
pub open spec fn sets(env: Variables, pair: PairText, name: Seq<char>) -> bool {
    env.key(arg_variable(pair.0)) == env.key(arg_variable(name))
}

/// Whether the last of `pairs` that sets `name` is the one at `i`.
pub open spec fn sets_last(env: Variables, pairs: Seq<PairText>, i: int, name: Seq<char>) -> bool {
    &&& 0 <= i < pairs.len()
    &&& sets(env, pairs[i], name)
    &&& forall|j: int| i < j < pairs.len() ==> !sets(env, #[trigger] pairs[j], name)
}

/// Whether none of `pairs` sets `name`.
pub open spec fn sets_never(env: Variables, pairs: Seq<PairText>, name: Seq<char>) -> bool {
    forall|j: int| 0 <= j < pairs.len() ==> !sets(env, #[trigger] pairs[j], name)
}

/// Whether the argument of the command line at `i` has a value and sets `name`.
pub open spec fn line_sets(
    env: Variables,
    matches: Seq<(String, Vec<String>)>,
    i: int,
    name: Seq<char>,
) -> bool {
    matches[i].1@.len() > 0 && env.key(arg_variable(matches[i].0@)) == env.key(arg_variable(name))
}

proof fn lemma_line_never(env: Variables, matches: Seq<(String, Vec<String>)>, name: Seq<char>)
    requires
        forall|j: int| 0 <= j < matches.len() ==> !#[trigger] line_sets(env, matches, j, name),
    ensures
        sets_never(env, line_args(matches), name),
    decreases matches.len(),
{
    if matches.len() > 0 {
        let rest = matches.drop_last();
        assert forall|j: int| 0 <= j < rest.len() implies !#[trigger] line_sets(
            env,
            rest,
            j,
            name,
        ) by {
            assert(rest[j] == matches[j]);
            assert(!line_sets(env, matches, j, name));
        }
        lemma_line_never(env, rest, name);
        assert(!line_sets(env, matches, matches.len() - 1, name));
    }
}

proof fn lemma_line_last(
    env: Variables,
    matches: Seq<(String, Vec<String>)>,
    i: int,
    name: Seq<char>,
) -> (at: int)
    requires
        0 <= i < matches.len(),
        line_sets(env, matches, i, name),
        forall|j: int| i < j < matches.len() ==> !#[trigger] line_sets(env, matches, j, name),
    ensures
        sets_last(env, line_args(matches), at, name),
        line_args(matches)[at] == (matches[i].0@, matches[i].1@[0]@),
    decreases matches.len(),
{
    if i == matches.len() - 1 {
        line_args(matches).len() - 1
    } else {
        let rest = matches.drop_last();
        assert(rest[i] == matches[i]);
        assert forall|j: int| i < j < rest.len() implies !#[trigger] line_sets(
            env,
            rest,
            j,
            name,
        ) by {
            assert(rest[j] == matches[j]);
            assert(!line_sets(env, matches, j, name));
        }
        let at = lemma_line_last(env, rest, i, name);
        assert(!line_sets(env, matches, matches.len() - 1, name));
        at
    }
}

/// All that is set, in its order.
spec fn in_order(
    dotenv: Option<&str>,
    config: Option<&str>,
    matches: Seq<(String, Vec<String>)>,
) -> Seq<PairText> {
    given_by_file(dotenv) + given_by_file(config) + line_args(matches)
}

proof fn lemma_in_order(
    dotenv: Option<&str>,
    config: Option<&str>,
    matches: Seq<(String, Vec<String>)>,
)
    ensures
        all_args(dotenv, config, matches) == in_order(dotenv, config, matches),
{
    lemma_file_args(dotenv);
    lemma_file_args(config);
}

/// After all was set, an argument that the command line gives has the first of its values there,
/// whatever the files and the environment say.
pub proof fn command_line_counts_most(
    env: &mut Environment,
    dotenv: Option<&str>,
    config: Option<&str>,
    matches: &Vec<(String, Vec<String>)>,
    r: Result<(), UnsettableArg>,
    i: int,
    name: &str,
    found: Option<String>,
)
    requires
        call_ensures(init_args, (env, dotenv, config, matches), r),
        r is Ok,
        0 <= i < matches@.len(),
        line_sets(old(env)@, matches@, i, name@),
        forall|j: int|
            i < j < matches@.len() ==> !#[trigger] line_sets(old(env)@, matches@, j, name@),
        call_ensures(get_arg_opt, (&*final(env), name), found),
    ensures
        found is Some,
        found->0@ == matches@[i].1@[0]@,
{
    let all = in_order(dotenv, config, matches@);
    lemma_in_order(dotenv, config, matches@);
    let at = lemma_line_last(old(env)@, matches@, i, name@);
    let from = given_by_file(dotenv).len() + given_by_file(config).len();
    assert forall|j: int| from + at < j < all.len() implies old(env)@.key(
        arg_variable((#[trigger] all[j]).0),
    ) != old(env)@.key(arg_variable(name@)) by {
        assert(all[j] == line_args(matches@)[j - from]);
        assert(!sets(old(env)@, line_args(matches@)[j - from], name@));
    }
    assert(all[from + at] == line_args(matches@)[at]);
    last_setting_counts(old(env)@, all, from + at, name@);
}

/// After all was set, an argument that the configuration file gives, and the command line does not,
/// has the last value that the file gives it; whether or not there is a file `.env`, and whatever
/// that and the environment say.
pub proof fn configuration_file_counts(
    env: &mut Environment,
    dotenv: Option<&str>,
    config: Option<&str>,
    matches: &Vec<(String, Vec<String>)>,
    r: Result<(), UnsettableArg>,
    i: int,
    name: &str,
    found: Option<String>,
)
    requires
        call_ensures(init_args, (env, dotenv, config, matches), r),
        r is Ok,
        sets_last(old(env)@, given_by_file(config), i, name@),
        forall|j: int|
            0 <= j < matches@.len() ==> !#[trigger] line_sets(old(env)@, matches@, j, name@),
        call_ensures(get_arg_opt, (&*final(env), name), found),
    ensures
        found is Some,
        found->0@ == given_by_file(config)[i].1,
{
    let all = in_order(dotenv, config, matches@);
    lemma_in_order(dotenv, config, matches@);
    lemma_line_never(old(env)@, matches@, name@);
    let from = given_by_file(dotenv).len() as int;
    let to = from + given_by_file(config).len();
    assert forall|j: int| from + i < j < all.len() implies old(env)@.key(
        arg_variable((#[trigger] all[j]).0),
    ) != old(env)@.key(arg_variable(name@)) by {
        if j < to {
            assert(all[j] == given_by_file(config)[j - from]);
            assert(!sets(old(env)@, given_by_file(config)[j - from], name@));
        } else {
            assert(all[j] == line_args(matches@)[j - to]);
            assert(!sets(old(env)@, line_args(matches@)[j - to], name@));
        }
    }
    assert(all[from + i] == given_by_file(config)[i]);
    last_setting_counts(old(env)@, all, from + i, name@);
}

/// After all was set, an argument that only the file `.env` gives has the last value there, whatever
/// the environment says.
pub proof fn dotenv_file_counts(
    env: &mut Environment,
    dotenv: Option<&str>,
    config: Option<&str>,
    matches: &Vec<(String, Vec<String>)>,
    r: Result<(), UnsettableArg>,
    i: int,
    name: &str,
    found: Option<String>,
)
    requires
        call_ensures(init_args, (env, dotenv, config, matches), r),
        r is Ok,
        sets_last(old(env)@, given_by_file(dotenv), i, name@),
        sets_never(old(env)@, given_by_file(config), name@),
        forall|j: int|
            0 <= j < matches@.len() ==> !#[trigger] line_sets(old(env)@, matches@, j, name@),
        call_ensures(get_arg_opt, (&*final(env), name), found),
    ensures
        found is Some,
        found->0@ == given_by_file(dotenv)[i].1,
{
    let all = in_order(dotenv, config, matches@);
    lemma_in_order(dotenv, config, matches@);
    lemma_line_never(old(env)@, matches@, name@);
    let from = given_by_file(dotenv).len() as int;
    let to = from + given_by_file(config).len();
    assert forall|j: int| i < j < all.len() implies old(env)@.key(
        arg_variable((#[trigger] all[j]).0),
    ) != old(env)@.key(arg_variable(name@)) by {
        if j < from {
            assert(all[j] == given_by_file(dotenv)[j]);
            assert(!sets(old(env)@, given_by_file(dotenv)[j], name@));
        } else if j < to {
            assert(all[j] == given_by_file(config)[j - from]);
            assert(!sets(old(env)@, given_by_file(config)[j - from], name@));
        } else {
            assert(all[j] == line_args(matches@)[j - to]);
            assert(!sets(old(env)@, line_args(matches@)[j - to], name@));
        }
    }
    assert(all[i] == given_by_file(dotenv)[i]);
    last_setting_counts(old(env)@, all, i, name@);
}

/// A variable that neither a file nor the command line sets stays as it is, even where all is not
/// set.
pub proof fn other_variables_stay(
    env: &mut Environment,
    dotenv: Option<&str>,
    config: Option<&str>,
    matches: &Vec<(String, Vec<String>)>,
    r: Result<(), UnsettableArg>,
    variable: Seq<char>,
)
    requires
        call_ensures(init_args, (env, dotenv, config, matches), r),
        forall|j: int|
            0 <= j < given_by_file(dotenv).len() ==> old(env)@.key(
                arg_variable((#[trigger] given_by_file(dotenv)[j]).0),
            ) != old(env)@.key(variable),
        forall|j: int|
            0 <= j < given_by_file(config).len() ==> old(env)@.key(
                arg_variable((#[trigger] given_by_file(config)[j]).0),
            ) != old(env)@.key(variable),
        forall|j: int|
            0 <= j < matches@.len() && (#[trigger] matches@[j]).1@.len() > 0 ==> old(env)@.key(
                arg_variable(matches@[j].0@),
            ) != old(env)@.key(variable),
    ensures
        final(env)@.has(variable) == old(env)@.has(variable),
        final(env)@.value(variable) == old(env)@.value(variable),
        final(env)@.lists(variable) == old(env)@.lists(variable),
{
    let all = in_order(dotenv, config, matches@);
    lemma_in_order(dotenv, config, matches@);
    let line = line_args(matches@);
    assert forall|j: int| 0 <= j < line.len() implies old(env)@.key(
        arg_variable((#[trigger] line[j]).0),
    ) != old(env)@.key(variable) by {
        let k = lemma_line_from(matches@, j);
        assert(matches@[k].1@.len() > 0);
    }
    let from = given_by_file(dotenv).len() as int;
    let to = from + given_by_file(config).len();
    assert forall|j: int| 0 <= j < all.len() implies old(env)@.key(
        arg_variable((#[trigger] all[j]).0),
    ) != old(env)@.key(variable) by {
        if j < from {
            assert(all[j] == given_by_file(dotenv)[j]);
        } else if j < to {
            assert(all[j] == given_by_file(config)[j - from]);
        } else {
            assert(all[j] == line[j - to]);
        }
    }
    if r is Ok {
        unset_arguments_stay(old(env)@, all, variable);
    } else {
        let stop = choose|stop: int|
            #![trigger is_stop(all, stop)]
            is_stop(all, stop) && all[stop] == (r->Err_0.name@, r->Err_0.value@) && final(env)@
                == assigned(old(env)@, all.take(stop));
        assert forall|j: int| 0 <= j < all.take(stop).len() implies old(env)@.key(
            arg_variable((#[trigger] all.take(stop)[j]).0),
        ) != old(env)@.key(variable) by {
            assert(all.take(stop)[j] == all[j]);
        }
        unset_arguments_stay(old(env)@, all.take(stop), variable);
    }
}

/// An argument of the command line that is set comes from one that has a value.
proof fn lemma_line_from(matches: Seq<(String, Vec<String>)>, j: int) -> (k: int)
    requires
        0 <= j < line_args(matches).len(),
    ensures
        0 <= k < matches.len(),
        matches[k].1@.len() > 0,
        line_args(matches)[j] == (matches[k].0@, matches[k].1@[0]@),
    decreases matches.len(),
{
    let rest = matches.drop_last();
    if j < line_args(rest).len() {
        let k = lemma_line_from(rest, j);
        assert(rest[k] == matches[k]);
        assert(line_args(matches)[j] == line_args(rest)[j]);
        k
    } else {
        matches.len() - 1
    }
}

/// An argument of the command line that has a value is set.
proof fn lemma_line_to(matches: Seq<(String, Vec<String>)>, k: int) -> (j: int)
    requires
        0 <= k < matches.len(),
        matches[k].1@.len() > 0,
    ensures
        0 <= j < line_args(matches).len(),
        line_args(matches)[j] == (matches[k].0@, matches[k].1@[0]@),
    decreases matches.len(),
{
    let rest = matches.drop_last();
    if k == matches.len() - 1 {
        line_args(matches).len() - 1
    } else {
        assert(rest[k] == matches[k]);
        let j = lemma_line_to(rest, k);
        assert(line_args(matches)[j] == line_args(rest)[j]);
        j
    }
}

/// All is set exactly where a variable can keep each argument that the files and the command line
/// give; else the error is one that none can keep.
pub proof fn all_is_set_that_can_be_kept(
    env: &mut Environment,
    dotenv: Option<&str>,
    config: Option<&str>,
    matches: &Vec<(String, Vec<String>)>,
    r: Result<(), UnsettableArg>,
)
    requires
        call_ensures(init_args, (env, dotenv, config, matches), r),
    ensures
        r is Ok <==> {
            &&& forall|j: int|
                0 <= j < given_by_file(dotenv).len() ==> !cannot_be_kept(
                    arg_variable((#[trigger] given_by_file(dotenv)[j]).0),
                    given_by_file(dotenv)[j].1,
                )
            &&& forall|j: int|
                0 <= j < given_by_file(config).len() ==> !cannot_be_kept(
                    arg_variable((#[trigger] given_by_file(config)[j]).0),
                    given_by_file(config)[j].1,
                )
            &&& forall|j: int|
                0 <= j < matches@.len() && (#[trigger] matches@[j]).1@.len() > 0
                    ==> !cannot_be_kept(arg_variable(matches@[j].0@), matches@[j].1@[0]@)
        },
        r is Err ==> cannot_be_kept(arg_variable(r->Err_0.name@), r->Err_0.value@),
{
    let d = given_by_file(dotenv);
    let c = given_by_file(config);
    let line = line_args(matches@);
    let all = in_order(dotenv, config, matches@);
    lemma_in_order(dotenv, config, matches@);
    assert forall|pair: PairText| #[trigger] pair_is_settable(pair) == !cannot_be_kept(
        arg_variable(pair.0),
        pair.1,
    ) by {
        lemma_settable(arg_variable(pair.0), pair.1);
    }
    if r is Ok {
        assert forall|j: int| 0 <= j < d.len() implies !cannot_be_kept(
            arg_variable((#[trigger] d[j]).0),
            d[j].1,
        ) by {
            assert(all[j] == d[j]);
            assert(pair_is_settable(all[j]));
        }
        assert forall|j: int| 0 <= j < c.len() implies !cannot_be_kept(
            arg_variable((#[trigger] c[j]).0),
            c[j].1,
        ) by {
            assert(all[d.len() + j] == c[j]);
            assert(pair_is_settable(all[d.len() + j]));
        }
        assert forall|k: int|
            0 <= k < matches@.len() && (#[trigger] matches@[k]).1@.len() > 0 implies !cannot_be_kept(
            arg_variable(matches@[k].0@),
            matches@[k].1@[0]@,
        ) by {
            let j = lemma_line_to(matches@, k);
            assert(all[d.len() + c.len() + j] == line[j]);
            assert(pair_is_settable(all[d.len() + c.len() + j]));
        }
    } else {
        let stop = choose|stop: int|
            #![trigger is_stop(all, stop)]
            is_stop(all, stop) && all[stop] == (r->Err_0.name@, r->Err_0.value@) && final(env)@
                == assigned(old(env)@, all.take(stop));
        assert(!pair_is_settable(all[stop]));
        if stop < d.len() {
            assert(all[stop] == d[stop]);
        } else if stop < d.len() + c.len() {
            assert(all[stop] == c[stop - d.len()]);
        } else {
            let j = stop - d.len() - c.len();
            assert(all[stop] == line[j]);
            let k = lemma_line_from(matches@, j);
            assert(matches@[k].1@.len() > 0);
        }
    }
}

/// Arguments that are set one after the other have the last value that they were set to, and are set
/// exactly where a variable can keep each of them.
pub proof fn arguments_are_set_in_order(
    env: &mut Environment,
    pairs: &Vec<(String, String)>,
    r: Result<(), UnsettableArg>,
    i: int,
    name: &str,
    found: Option<String>,
)
    requires
        call_ensures(set_args, (env, pairs), r),
        call_ensures(get_arg_opt, (&*final(env), name), found),
    ensures
        r is Ok <==> forall|j: int|
            0 <= j < pairs@.len() ==> !cannot_be_kept(
                arg_variable((#[trigger] pairs@[j]).0@),
                pairs@[j].1@,
            ),
        r is Ok && 0 <= i < pairs@.len() && old(env)@.key(arg_variable(pairs@[i].0@)) == old(
            env,
        )@.key(arg_variable(name@)) && (forall|j: int|
            i < j < pairs@.len() ==> old(env)@.key(arg_variable((#[trigger] pairs@[j]).0@)) != old(
                env,
            )@.key(arg_variable(name@))) ==> found is Some && found->0@ == pairs@[i].1@,
{
    let all = pair_texts(pairs@);
    assert forall|pair: PairText| #[trigger] pair_is_settable(pair) == !cannot_be_kept(
        arg_variable(pair.0),
        pair.1,
    ) by {
        lemma_settable(arg_variable(pair.0), pair.1);
    }
    if r is Ok {
        assert forall|j: int| 0 <= j < pairs@.len() implies !cannot_be_kept(
            arg_variable((#[trigger] pairs@[j]).0@),
            pairs@[j].1@,
        ) by {
            assert(pair_is_settable(all[j]));
        }
        if 0 <= i < pairs@.len() && old(env)@.key(arg_variable(pairs@[i].0@)) == old(env)@.key(
            arg_variable(name@),
        ) && (forall|j: int|
            i < j < pairs@.len() ==> old(env)@.key(arg_variable((#[trigger] pairs@[j]).0@)) != old(
                env,
            )@.key(arg_variable(name@))) {
            assert forall|j: int| i < j < all.len() implies old(env)@.key(
                arg_variable((#[trigger] all[j]).0),
            ) != old(env)@.key(arg_variable(name@)) by {
                assert(all[j].0 == pairs@[j].0@);
            }
            last_setting_counts(old(env)@, all, i, name@);
        }
    } else {
        let stop = choose|stop: int|
            #![trigger is_stop(all, stop)]
            is_stop(all, stop) && all[stop] == (r->Err_0.name@, r->Err_0.value@) && final(env)@
                == assigned(old(env)@, all.take(stop));
        assert(!pair_is_settable(all[stop]));
        assert(all[stop].0 == pairs@[stop].0@);
    }
}

/// Variables are found as they were put, and no other has changed. Where case does not matter, names
/// of ASCII characters are the same that differ in case alone.
pub proof fn variables_are_found_as_put(
    env: &mut Environment,
    name: String,
    value: String,
    asked: &str,
    before: Option<String>,
    r: Option<String>,
)
    requires
        is_ascii_chars(name@),
        is_ascii_chars(asked@),
        call_ensures(Environment::put, (env, name, value), ()),
        call_ensures(Environment::get, (&*old(env), asked), before),
        call_ensures(Environment::get, (&*final(env), asked), r),
    ensures
        ({
            let same = if old(env)@.ignores_case {
                name@.len() == asked@.len() && forall|i: int|
                    0 <= i < name@.len() ==> ascii_uppercase(#[trigger] name@[i]) == ascii_uppercase(
                        asked@[i],
                    )
            } else {
                name@ == asked@
            };
            &&& same ==> r is Some && r->0@ == value@
            &&& !same ==> (r is Some <==> before is Some) && (r is Some ==> r->0@ == before->0@)
        }),
{
    let a = uppercase(name@);
    let b = uppercase(asked@);
    assert(a.len() == name@.len() && b.len() == asked@.len());
    assert forall|i: int| 0 <= i < name@.len() implies ascii_uppercase(#[trigger] name@[i]) == a[i] by {
    }
    assert forall|i: int| 0 <= i < asked@.len() implies ascii_uppercase(#[trigger] asked@[i]) == b[i] by {
    }
    if a == b {
        assert forall|i: int| 0 <= i < name@.len() implies ascii_uppercase(#[trigger] name@[i])
            == ascii_uppercase(asked@[i]) by {
            assert(ascii_uppercase(asked@[i]) == b[i]);
        }
    }
    if name@.len() == asked@.len() && forall|i: int|
        0 <= i < name@.len() ==> ascii_uppercase(#[trigger] name@[i]) == ascii_uppercase(
            asked@[i],
        ) {
        assert(a =~= b);
    }
}

/// Whatever its script, a variable is found as it was put, and no other has changed. Where case does
/// not matter, names are the same that are so in upper case.
pub proof fn variables_of_any_script_are_found_as_put(
    env: &mut Environment,
    name: String,
    value: String,
    asked: &str,
    put: &str,
    capitals: (String, String),
    before: Option<String>,
    r: Option<String>,
)
    requires
        put@ == name@,
        call_ensures(str::to_uppercase, (put,), capitals.0),
        call_ensures(str::to_uppercase, (asked,), capitals.1),
        call_ensures(Environment::put, (env, name, value), ()),
        call_ensures(Environment::get, (&*old(env), asked), before),
        call_ensures(Environment::get, (&*final(env), asked), r),
    ensures
        ({
            let same = if old(env)@.ignores_case {
                capitals.0@ == capitals.1@
            } else {
                name@ == asked@
            };
            &&& same ==> r is Some && r->0@ == value@
            &&& !same ==> (r is Some <==> before is Some) && (r is Some ==> r->0@ == before->0@)
        }),
{
}

/// Whatever its script, an argument that is set is found under the name that keeps it, whichever
/// other variables there are.
pub proof fn argument_of_any_script_is_set(
    env: &mut Environment,
    name: &str,
    value: &str,
    kept: String,
    asked: &str,
    r: Option<String>,
    found: Option<String>,
)
    requires
        call_ensures(set_arg, (env, name, value), ()),
        call_ensures(arg_name, (name,), kept),
        asked@ == kept@,
        call_ensures(Environment::get, (&*final(env), asked), r),
        call_ensures(get_arg_opt, (&*final(env), name), found),
    ensures
        r is Some && r->0@ == value@,
        found is Some && found->0@ == value@,
{
}

/// In an empty environment nothing is found, by whatever name.
pub proof fn empty_environment_has_nothing(
    ignores_case: bool,
    env: Environment,
    name: &str,
    r: Option<String>,
    count: usize,
)
    requires
        call_ensures(Environment::new, (ignores_case,), env),
        call_ensures(Environment::get, (&env, name), r),
        call_ensures(Environment::len, (&env,), count),
    ensures
        r is None,
        count == 0,
{
}

/// Each variable that the environment counts is found by its name, with its value.
pub proof fn counted_variables_are_found(
    env: &Environment,
    i: usize,
    count: usize,
    var: (&String, &String),
    name: &str,
    r: Option<String>,
)
    requires
        call_ensures(Environment::len, (env,), count),
        i < count,
        call_ensures(Environment::var, (env, i), var),
        name@ == var.0@,
        call_ensures(Environment::get, (env, name), r),
    ensures
        r is Some,
        r->0@ == var.1@,
{
}

}
