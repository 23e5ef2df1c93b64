//! Arguments of the server: given on the command line, in files or by the environment, and looked
//! up by names in which neither case nor separators matter.

use vstd::prelude::*;
use vstd::utf8::is_ascii_chars;

use crate::environment::{is_settable, settable, Environment, Variables};
use crate::text::{
    ascii_lowercase, ascii_uppercase, characters, lowercase, order_is_strict, order_is_total,
    order_is_transitive, precedes, replace, replaced, same_text, stands_before, text_of, uppercase,
};

verus! {

/// The variable in which the argument `name` is kept.
pub open spec fn arg_variable(name: Seq<char>) -> Seq<char> {
    replaced(uppercase(name), '_', '-')
}

/// The variable in which the argument `name` is kept.
pub fn arg_name(name: &str) -> (r: String)
    ensures
        r@ == arg_variable(name@),
{
    replace(name.to_uppercase().as_str(), '_', '-')
}

/// Gives the argument `name` the value `value`. Left out are names and values that no variable can
/// have.
pub fn set_arg(env: &mut Environment, name: &str, value: &str)
    requires
        is_settable(arg_variable(name@), value@),
    ensures
        final(env)@ == old(env)@.with(arg_variable(name@), value@),
{
    env.put(arg_name(name), String::from_str(value));
}

/// The variables of which the first that is set gives the argument that is kept in `variable`,
/// before all others.
pub open spec fn first_aliases(variable: Seq<char>) -> Seq<Seq<char>> {
    let underscored = replaced(variable, '-', '_');
    seq![variable, underscored, lowercase(variable), lowercase(underscored)]
}

/// Whether the variable `name` is set and gives the argument that is kept in `variable`.
pub open spec fn is_alias(
    env: Variables,
    variable: Seq<char>,
    name: Seq<char>,
) -> bool {
    env.lists(name) && arg_variable(name) == variable
}

/// Whether `name` is the first of the variables that give the argument.
pub open spec fn is_first_alias(
    env: Variables,
    variable: Seq<char>,
    name: Seq<char>,
) -> bool {
    &&& is_alias(env, variable, name)
    &&& forall|other: Seq<char>| #[trigger]
        is_alias(env, variable, other) && other != name ==> precedes(name, other)
}

/// The value of the argument that is kept in `variable`.
pub open spec fn variable_value(
    env: Variables,
    variable: Seq<char>,
) -> Option<Seq<char>> {
    let aliases = first_aliases(variable);
    if env.has(aliases[0]) {
        Some(env.value(aliases[0]))
    } else if env.has(aliases[1]) {
        Some(env.value(aliases[1]))
    } else if env.has(aliases[2]) {
        Some(env.value(aliases[2]))
    } else if env.has(aliases[3]) {
        Some(env.value(aliases[3]))
    } else if exists|name: Seq<char>| is_first_alias(env, variable, name) {
        Some(env.value(choose|name: Seq<char>| is_first_alias(env, variable, name)))
    } else {
        None
    }
}

/// The value of the argument `name`: that of the variable in which it is kept; else that of the
/// same name with underscores, with small letters, or with both; else that of the first variable
/// whose name is another way to write it.
pub open spec fn arg_value(env: Variables, name: Seq<char>) -> Option<Seq<char>> {
    variable_value(env, arg_variable(name))
}

/// A text or none, as mathematics has it.
pub open spec fn text_or_none(text: Option<String>) -> Option<Seq<char>> {
    match text {
        Some(text) => Some(text@),
        None => None,
    }
}

/// The value of the argument `name`, where it has one.
pub fn get_arg_opt(env: &Environment, name: &str) -> (r: Option<String>)
    ensures
        text_or_none(r) == arg_value(env@, name@),
{
    let dashed: String = arg_name(name);
    let underscored: String = replace(dashed.as_str(), '-', '_');
    let lower_dashed: String = dashed.as_str().to_lowercase();
    let lower_underscored: String = underscored.as_str().to_lowercase();
    match env.get(dashed.as_str()) {
        Some(value) => return Some(value),
        None => {},
    }
    match env.get(underscored.as_str()) {
        Some(value) => return Some(value),
        None => {},
    }
    match env.get(lower_dashed.as_str()) {
        Some(value) => return Some(value),
        None => {},
    }
    match env.get(lower_underscored.as_str()) {
        Some(value) => return Some(value),
        None => {},
    }
    let mut best: Option<usize> = None;
    let mut i: usize = 0;
    while i < env.len()
        invariant
            i <= env.names().len(),
            dashed@ == arg_variable(name@),
            match best {
                Some(b) => b < i && arg_variable(env.names()[b as int]) == dashed@ && (forall|j: int|
                    0 <= j < i && arg_variable(#[trigger] env.names()[j]) == dashed@
                        && env.names()[j] != env.names()[b as int] ==> precedes(
                        env.names()[b as int],
                        env.names()[j],
                    )),
                None => forall|j: int|
                    0 <= j < i ==> arg_variable(#[trigger] env.names()[j]) != dashed@,
            },
        decreases env.names().len() - i,
    {
        let (key, value) = env.var(i);
        if same_text(arg_name(key.as_str()).as_str(), dashed.as_str()) {
            match best {
                Some(b) => {
                    let (best_key, best_value) = env.var(b);
                    let ghost old_best = best_key@;
                    if stands_before(key.as_str(), best_key.as_str()) {
                        proof {
                            order_is_strict(key@, old_best);
                            assert forall|j: int|
                                0 <= j <= i && arg_variable(#[trigger] env.names()[j]) == dashed@
                                    && env.names()[j] != key@ implies precedes(
                                key@,
                                env.names()[j],
                            ) by {
                                if j < i && env.names()[j] != old_best {
                                    order_is_transitive(key@, old_best, env.names()[j]);
                                }
                            }
                        }
                        best = Some(i);
                    } else {
                        proof {
                            order_is_total(key@, old_best);
                        }
                    }
                },
                None => {
                    best = Some(i);
                },
            }
        }
        i += 1;
    }
    proof {
        env.names_are_all();
    }
    match best {
        Some(b) => {
            let (key, value) = env.var(b);
            proof {
                let found = key@;
                assert(is_first_alias(env@, dashed@, found)) by {
                    assert forall|other: Seq<char>| #[trigger]
                        is_alias(env@, dashed@, other) && other != found implies precedes(
                        found,
                        other,
                    ) by {
                        assert(env.names().contains(other));
                        let j = choose|j: int|
                            0 <= j < env.names().len() && env.names()[j] == other;
                        assert(arg_variable(env.names()[j]) == dashed@);
                    }
                }
                lemma_first_alias_is_one(
                    env@,
                    dashed@,
                    found,
                    choose|name: Seq<char>| is_first_alias(env@, dashed@, name),
                );
                assert(is_alias(env@, dashed@, found));
            }
            Some(value.clone())
        },
        None => {
            proof {
                assert forall|other: Seq<char>| !is_alias(env@, dashed@, other) by {
                    if env@.lists(other) {
                        assert(env.names().contains(other));
                        let j = choose|j: int|
                            0 <= j < env.names().len() && env.names()[j] == other;
                        assert(arg_variable(env.names()[j]) != dashed@);
                    }
                }
            }
            None
        },
    }
}

/// Of the variables that give an argument, only one is the first.
pub proof fn lemma_first_alias_is_one(
    env: Variables,
    variable: Seq<char>,
    a: Seq<char>,
    b: Seq<char>,
)
    requires
        is_first_alias(env, variable, a),
        is_first_alias(env, variable, b),
    ensures
        a == b,
{
    if a != b {
        assert(precedes(a, b));
        assert(precedes(b, a));
        order_is_strict(a, b);
    }
}

/// The value of the argument `name`, or nothing.
pub fn get_arg(env: &Environment, name: &str) -> (r: String)
    ensures
        r@ == (match arg_value(env@, name@) {
            Some(value) => value,
            None => Seq::empty(),
        }),
{
    get_arg_or(env, name, String::new())
}

/// The value of the argument `name`, or `default`.
pub fn get_arg_or(env: &Environment, name: &str, default: String) -> (r: String)
    ensures
        r@ == (match arg_value(env@, name@) {
            Some(value) => value,
            None => default@,
        }),
{
    match get_arg_opt(env, name) {
        Some(value) => value,
        None => default,
    }
}

/// A name and a value, as mathematics has them.
pub type PairText = (Seq<char>, Seq<char>);

/// The texts of pairs.
pub open spec fn pair_texts(pairs: Seq<(String, String)>) -> Seq<PairText> {
    pairs.map_values(|pair: (String, String)| (pair.0@, pair.1@))
}

/// Pairs or none, as mathematics has them.
pub open spec fn pairs_or_none(pairs: Option<Vec<(String, String)>>) -> Option<Seq<PairText>> {
    match pairs {
        Some(pairs) => Some(pair_texts(pairs@)),
        None => None,
    }
}

/// The names and values that stand before the first section of the INI text `text`, in order, as
/// the crate rust-ini reads it; none, where it reads an error or finds none there.
pub uninterp spec fn ini_general(text: Seq<char>) -> Option<Seq<PairText>>;

/// `Ini::load_from_str` of rust-ini reads INI text, and `Ini::section` gives the names and values
/// of the section that has no name, in the order of the text. What they are is left to
/// `ini_general`.
#[verifier::external_body]
fn general_section(text: &str) -> (r: Option<Vec<(String, String)>>)
    ensures
        pairs_or_none(r) == ini_general(text@),
{
    let ini = ini::Ini::load_from_str(text).ok()?;
    let section = ini.section(None::<String>)?;
    Some(section.iter().map(|(name, value)| (name.to_string(), value.to_string())).collect())
}

/// `text` without the mark with which some editors begin a file.
pub open spec fn without_mark(text: Seq<char>) -> Seq<char> {
    if text.len() > 0 && text[0] == '\u{feff}' {
        text.drop_first()
    } else {
        text
    }
}

/// The arguments that a file gives, of which `text` is the text; none, where there is no such file
/// or it cannot be read.
pub open spec fn file_args(text: Option<Seq<char>>) -> Seq<PairText> {
    match text {
        Some(text) => match ini_general(without_mark(text)) {
            Some(pairs) => pairs,
            None => Seq::empty(),
        },
        None => Seq::empty(),
    }
}

/// The arguments that the command line gives: of each that has values, the first.
pub open spec fn line_args(matches: Seq<(String, Vec<String>)>) -> Seq<PairText>
    decreases matches.len(),
{
    if matches.len() == 0 {
        Seq::empty()
    } else {
        let before = line_args(matches.drop_last());
        let (name, values) = matches.last();
        if values@.len() > 0 {
            before.push((name@, values@[0]@))
        } else {
            before
        }
    }
}

/// `env` after the arguments `pairs` were set in their order.
pub open spec fn assigned(
    env: Variables,
    pairs: Seq<PairText>,
) -> Variables
    decreases pairs.len(),
{
    if pairs.len() == 0 {
        env
    } else {
        let (name, value) = pairs.last();
        assigned(env, pairs.drop_last()).with(arg_variable(name), value)
    }
}

/// Whether an argument can be set.
pub open spec fn pair_is_settable(pair: PairText) -> bool {
    is_settable(arg_variable(pair.0), pair.1)
}

/// An argument that no variable can keep.
pub struct UnsettableArg {
    pub name: String,
    pub value: String,
}

/// Sets the arguments `pairs` in their order, up to the first that no variable can keep.
pub fn set_args(env: &mut Environment, pairs: &Vec<(String, String)>) -> (r: Result<(), UnsettableArg>)
    ensures
        match r {
            Ok(()) => set_all(old(env)@, final(env)@, pair_texts(pairs@)),
            Err(error) => set_until(
                old(env)@,
                final(env)@,
                pair_texts(pairs@),
                (error.name@, error.value@),
            ),
        },
{
    let ghost all = pair_texts(pairs@);
    let mut i: usize = 0;
    assert(all.take(0) =~= Seq::<PairText>::empty());
    while i < pairs.len()
        invariant
            i <= pairs.len(),
            all == pair_texts(pairs@),
            env@ == assigned(old(env)@, all.take(i as int)),
            forall|j: int| 0 <= j < i ==> pair_is_settable(#[trigger] all[j]),
        decreases pairs.len() - i,
    {
        let name: &str = pairs[i].0.as_str();
        let value: &str = pairs[i].1.as_str();
        assert(all[i as int] == (name@, value@));
        if !settable(arg_name(name).as_str(), value) {
            assert(is_stop(all, i as int));
            return Err(
                UnsettableArg { name: String::from_str(name), value: String::from_str(value) },
            );
        }
        set_arg(env, name, value);
        assert(all.take(i + 1).drop_last() =~= all.take(i as int));
        i += 1;
    }
    assert(all.take(i as int) =~= all);
    Ok(())
}

/// `after` is `before` with all of the arguments `pairs`.
pub open spec fn set_all(
    before: Variables,
    after: Variables,
    pairs: Seq<PairText>,
) -> bool {
    &&& forall|j: int| 0 <= j < pairs.len() ==> pair_is_settable(#[trigger] pairs[j])
    &&& after == assigned(before, pairs)
}

/// Whether `stop` is the first of `pairs` that no variable can keep.
pub open spec fn is_stop(pairs: Seq<PairText>, stop: int) -> bool {
    &&& 0 <= stop < pairs.len()
    &&& forall|j: int| 0 <= j < stop ==> pair_is_settable(#[trigger] pairs[j])
    &&& !pair_is_settable(pairs[stop])
}

/// `after` is `before` with the arguments `pairs` before `offender`, the first that no variable can
/// keep.
pub open spec fn set_until(
    before: Variables,
    after: Variables,
    pairs: Seq<PairText>,
    offender: PairText,
) -> bool {
    exists|stop: int|
        #![trigger is_stop(pairs, stop)]
        is_stop(pairs, stop) && pairs[stop] == offender && after == assigned(
            before,
            pairs.take(stop),
        )
}

/// Adds the arguments that a file gives.
fn add_file_args(pairs: &mut Vec<(String, String)>, text: Option<&str>)
    ensures
        pair_texts(final(pairs)@) == pair_texts(old(pairs)@) + file_args(
            match text {
                Some(text) => Some(text@),
                None => None,
            },
        ),
{
    match text {
        Some(text) => {
            let chars: Vec<char> = characters(text);
            let from: usize = if chars.len() > 0 && chars[0] == '\u{feff}' {
                1
            } else {
                0
            };
            let plain: String = text_of(&chars, from, chars.len());
            assert(plain@ =~= without_mark(text@));
            match general_section(plain.as_str()) {
                Some(mut more) => {
                    let ghost before = pairs@;
                    pairs.append(&mut more);
                    assert(pair_texts(pairs@) =~= pair_texts(before) + file_args(Some(text@)));
                },
                None => {
                    assert(pair_texts(pairs@) =~= pair_texts(pairs@) + file_args(Some(text@)));
                },
            }
        },
        None => {
            assert(pair_texts(pairs@) =~= pair_texts(pairs@) + file_args(None));
        },
    }
}

/// Adds the arguments that the command line gives.
fn add_line_args(pairs: &mut Vec<(String, String)>, matches: &Vec<(String, Vec<String>)>)
    ensures
        pair_texts(final(pairs)@) == pair_texts(old(pairs)@) + line_args(matches@),
{
    let mut i: usize = 0;
    assert(matches@.take(0) =~= Seq::<(String, Vec<String>)>::empty());
    assert(pair_texts(pairs@) =~= pair_texts(pairs@) + line_args(matches@.take(0)));
    while i < matches.len()
        invariant
            i <= matches.len(),
            pair_texts(pairs@) == pair_texts(old(pairs)@) + line_args(matches@.take(i as int)),
        decreases matches.len() - i,
    {
        let found: &(String, Vec<String>) = &matches[i];
        let ghost before = pairs@;
        assert(matches@.take(i + 1).drop_last() =~= matches@.take(i as int));
        if found.1.len() > 0 {
            let pair: (String, String) = (found.0.clone(), found.1[0].clone());
            pairs.push(pair);
            assert(pair_texts(pairs@) =~= pair_texts(before).push((found.0@, found.1@[0]@)));
        }
        i += 1;
        assert(pair_texts(pairs@) =~= pair_texts(old(pairs)@) + line_args(
            matches@.take(i as int),
        ));
    }
    assert(matches@.take(i as int) =~= matches@);
}

/// All arguments that two files and the command line give, in the order in which they are set.
pub open spec fn all_args(
    dotenv: Option<&str>,
    config: Option<&str>,
    matches: Seq<(String, Vec<String>)>,
) -> Seq<PairText> {
    let dotenv_text = match dotenv {
        Some(text) => Some(text@),
        None => None,
    };
    let config_text = match config {
        Some(text) => Some(text@),
        None => None,
    };
    file_args(dotenv_text) + file_args(config_text) + line_args(matches)
}

/// Sets the arguments that are given by the file `.env`, then those by the configuration file, then
/// those by the command line: the texts of the two files where they can be read, and the values
/// that each argument of the command line has. Stops at one that no variable can keep.
pub fn init_args(
    env: &mut Environment,
    dotenv: Option<&str>,
    config: Option<&str>,
    matches: &Vec<(String, Vec<String>)>,
) -> (r: Result<(), UnsettableArg>)
    ensures
        match r {
            Ok(()) => set_all(old(env)@, final(env)@, all_args(dotenv, config, matches@)),
            Err(error) => set_until(
                old(env)@,
                final(env)@,
                all_args(dotenv, config, matches@),
                (error.name@, error.value@),
            ),
        },
{
    let mut pairs: Vec<(String, String)> = Vec::new();
    add_file_args(&mut pairs, dotenv);
    add_file_args(&mut pairs, config);
    add_line_args(&mut pairs, matches);
    assert(pair_texts(pairs@) =~= all_args(dotenv, config, matches@));
    set_args(env, &pairs)
}

/// A character of a name, its case and its being one separator or the other aside.
pub open spec fn folded(c: char) -> char {
    if c == '_' {
        '-'
    } else {
        ascii_uppercase(c)
    }
}

/// Whether two names differ at most in case and separators.
pub open spec fn same_name(a: Seq<char>, b: Seq<char>) -> bool {
    a.len() == b.len() && forall|i: int| 0 <= i < a.len() ==> folded(#[trigger] a[i]) == folded(b[i])
}

/// The variable that keeps an argument with an ASCII name has its characters, folded.
pub proof fn lemma_ascii_variable(name: Seq<char>)
    requires
        is_ascii_chars(name),
    ensures
        arg_variable(name) == name.map_values(|c: char| folded(c)),
        is_ascii_chars(arg_variable(name)),
{
    assert(arg_variable(name) =~= name.map_values(|c: char| folded(c)));
}

/// Argument names, of ASCII characters, are the same for all purposes exactly where they differ at
/// most in case and separators.
pub proof fn names_ignore_case_and_separators(a: Seq<char>, b: Seq<char>)
    requires
        is_ascii_chars(a),
        is_ascii_chars(b),
    ensures
        arg_variable(a) == arg_variable(b) <==> same_name(a, b),
{
    lemma_ascii_variable(a);
    lemma_ascii_variable(b);
    let left = arg_variable(a);
    let right = arg_variable(b);
    if left == right {
        assert(a.len() == left.len() && b.len() == right.len());
        assert forall|i: int| 0 <= i < a.len() implies folded(#[trigger] a[i]) == folded(b[i]) by {
            assert(left[i] == folded(a[i]));
            assert(right[i] == folded(b[i]));
        }
    }
    if same_name(a, b) {
        assert(left =~= right);
    }
}

/// Names that are kept in one variable have one value, in every environment.
pub proof fn same_variable_same_value(env: Variables, a: Seq<char>, b: Seq<char>)
    requires
        arg_variable(a) == arg_variable(b),
    ensures
        arg_value(env, a) == arg_value(env, b),
{
}

/// What an argument was set to is what it has, by whatever name of it: no variable that was there
/// before comes first.
pub proof fn set_arg_is_got(
    env: Variables,
    name: Seq<char>,
    value: Seq<char>,
    other: Seq<char>,
)
    requires
        arg_variable(name) == arg_variable(other),
    ensures
        arg_value(env.with(arg_variable(name), value), other) == Some(value),
{
}

/// The lower case of the variable that keeps one argument is not the variable of another.
proof fn lemma_lowercase_is_no_other_variable(a: Seq<char>, b: Seq<char>)
    requires
        is_ascii_chars(a),
        is_ascii_chars(b),
        arg_variable(a) != arg_variable(b),
    ensures
        !first_aliases(arg_variable(b)).contains(arg_variable(a)),
{
    lemma_ascii_variable(a);
    lemma_ascii_variable(b);
    let u = arg_variable(a);
    let v = arg_variable(b);
    let w = replaced(v, '-', '_');
    assert forall|i: int| 0 <= i < u.len() implies u[i] != '_' && !('a' <= u[i] <= 'z') by {
        assert(u[i] == folded(a[i]));
    }
    assert forall|i: int| 0 <= i < v.len() implies v[i] != '_' && !('a' <= v[i] <= 'z') by {
        assert(v[i] == folded(b[i]));
    }
    assert(is_ascii_chars(w));
    if u == w {
        assert forall|i: int| 0 <= i < v.len() implies v[i] == u[i] by {
            assert(w[i] == u[i]);
        }
        assert(u =~= v);
    }
    if u == lowercase(v) {
        assert forall|i: int| 0 <= i < v.len() implies v[i] == u[i] by {
            assert(lowercase(v)[i] == ascii_lowercase(v[i]));
        }
        assert(u =~= v);
    }
    if u == lowercase(w) {
        assert forall|i: int| 0 <= i < v.len() implies v[i] == u[i] by {
            assert(lowercase(w)[i] == ascii_lowercase(w[i]));
            assert(w[i] == v[i] || (v[i] == '-' && w[i] == '_'));
        }
        assert(u =~= v);
    }
}

/// Setting an argument leaves all others as they are, where names are of ASCII characters.
pub proof fn set_arg_leaves_others(
    env: Variables,
    name: Seq<char>,
    value: Seq<char>,
    other: Seq<char>,
)
    requires
        env.wf(),
        is_ascii_chars(name),
        is_ascii_chars(other),
        !same_name(name, other),
    ensures
        arg_value(env.with(arg_variable(name), value), other) == arg_value(env, other),
{
    names_ignore_case_and_separators(name, other);
    lemma_lowercase_is_no_other_variable(name, other);
    lemma_ascii_variable(name);
    let set = arg_variable(name);
    let variable = arg_variable(other);
    let after = env.with(set, value);
    let aliases = first_aliases(variable);
    assert(uppercase(set) == set && arg_variable(set) == set) by {
        lemma_ascii_variable(set);
        assert forall|i: int| 0 <= i < set.len() implies folded(#[trigger] set[i]) == set[i]
            && ascii_uppercase(set[i]) == set[i] by {
            assert(set[i] == folded(name[i]));
        }
        assert(arg_variable(set) =~= set);
        assert(uppercase(set) =~= set);
    }
    assert(env.key(aliases[0]) != env.key(set) && env.key(aliases[1]) != env.key(set) && env.key(
        aliases[2],
    ) != env.key(set) && env.key(aliases[3]) != env.key(set)) by {
        lemma_uppercase_of_aliases(other);
        assert(aliases[0] != set && aliases[1] != set && aliases[2] != set && aliases[3] != set);
    }
    // The variable that was there before gave no other argument either.
    assert(env.has(set) ==> arg_variable(env.vars[env.key(set)].0) == set) by {
        if env.has(set) && env.ignores_case {
            let written = env.vars[env.key(set)].0;
            assert(uppercase(written) == set);
            assert(arg_variable(written) == arg_variable(set));
        }
    }
    assert forall|n: Seq<char>| is_alias(env, variable, n) == is_alias(after, variable, n) by {
        if env.key(n) == env.key(set) {
            assert(!is_alias(env, variable, n));
            assert(!is_alias(after, variable, n));
        }
    }
    assert forall|n: Seq<char>| is_first_alias(env, variable, n) == is_first_alias(
        after,
        variable,
        n,
    ) by {
        if is_first_alias(env, variable, n) {
            assert forall|m: Seq<char>| #[trigger]
                is_alias(after, variable, m) && m != n implies precedes(n, m) by {
                assert(is_alias(env, variable, m));
            }
        }
        if is_first_alias(after, variable, n) {
            assert forall|m: Seq<char>| #[trigger]
                is_alias(env, variable, m) && m != n implies precedes(n, m) by {
                assert(is_alias(after, variable, m));
            }
        }
    }
    let before_pick = choose|n: Seq<char>| is_first_alias(env, variable, n);
    let after_pick = choose|n: Seq<char>| is_first_alias(after, variable, n);
    if exists|n: Seq<char>| is_first_alias(env, variable, n) {
        assert(is_first_alias(env, variable, before_pick));
        assert(is_first_alias(after, variable, before_pick));
        lemma_first_alias_is_one(after, variable, before_pick, after_pick);
        assert(is_alias(env, variable, before_pick));
        assert(env.key(before_pick) != env.key(set));
    }
}

/// The four names under which an argument is looked for first have the upper case of two of them.
proof fn lemma_uppercase_of_aliases(name: Seq<char>)
    requires
        is_ascii_chars(name),
    ensures
        ({
            let aliases = first_aliases(arg_variable(name));
            &&& uppercase(aliases[0]) == aliases[0]
            &&& uppercase(aliases[1]) == aliases[1]
            &&& uppercase(aliases[2]) == aliases[0]
            &&& uppercase(aliases[3]) == aliases[1]
        }),
{
    lemma_ascii_variable(name);
    let v = arg_variable(name);
    let w = replaced(v, '-', '_');
    assert forall|i: int| 0 <= i < v.len() implies !('a' <= #[trigger] v[i] <= 'z') by {
        assert(v[i] == folded(name[i]));
    }
    assert(is_ascii_chars(w));
    assert(uppercase(v) =~= v);
    assert(uppercase(w) =~= w);
    assert(is_ascii_chars(lowercase(v)));
    assert(is_ascii_chars(lowercase(w)));
    assert(uppercase(lowercase(v)) =~= v);
    assert(uppercase(lowercase(w)) =~= w);
}

/// Among variables that give an argument, as long as they can be counted, one is the first.
proof fn lemma_first_alias_exists(env: Variables, variable: Seq<char>, name: Seq<char>)
    requires
        env.vars.dom().finite(),
        is_alias(env, variable, name),
    ensures
        exists|first: Seq<char>| is_first_alias(env, variable, first),
    decreases env.vars.dom().len(),
{
    let rest = Variables { vars: env.vars.remove(env.key(name)), ..env };
    assert forall|n: Seq<char>| #[trigger] is_alias(env, variable, n) && n != name implies is_alias(
        rest,
        variable,
        n,
    ) by {
        assert(rest.key(n) == env.key(n));
        assert(env.key(n) != env.key(name));
    }
    assert forall|n: Seq<char>| #[trigger] is_alias(rest, variable, n) implies is_alias(
        env,
        variable,
        n,
    ) && n != name by {
        assert(rest.key(n) == env.key(n));
    }
    if exists|other: Seq<char>| is_alias(rest, variable, other) {
        let other = choose|other: Seq<char>| is_alias(rest, variable, other);
        lemma_first_alias_exists(rest, variable, other);
        let best = choose|first: Seq<char>| is_first_alias(rest, variable, first);
        order_is_total(name, best);
        let first = if precedes(name, best) {
            name
        } else {
            best
        };
        assert forall|n: Seq<char>| #[trigger]
            is_alias(env, variable, n) && n != first implies precedes(first, n) by {
            if n != name {
                assert(is_alias(rest, variable, n));
                if first == name && n != best {
                    order_is_transitive(name, best, n);
                }
            }
        }
        assert(is_alias(rest, variable, best));
        assert(is_first_alias(env, variable, first));
    } else {
        assert forall|n: Seq<char>| #[trigger]
            is_alias(env, variable, n) && n != name implies precedes(name, n) by {
            assert(is_alias(rest, variable, n));
        }
        assert(is_first_alias(env, variable, name));
    }
}

/// An argument has a value wherever some variable is set whose name is a way to write it.
pub proof fn any_alias_gives_a_value(env: Variables, name: Seq<char>, alias: Seq<char>)
    requires
        env.wf(),
        env.lists(alias),
        arg_variable(alias) == arg_variable(name),
    ensures
        arg_value(env, name) is Some,
{
    lemma_first_alias_exists(env, arg_variable(name), alias);
}

/// Setting arguments leaves open whether case matters.
proof fn lemma_assigned_key(env: Variables, pairs: Seq<PairText>)
    ensures
        assigned(env, pairs).ignores_case == env.ignores_case,
    decreases pairs.len(),
{
    if pairs.len() > 0 {
        lemma_assigned_key(env, pairs.drop_last());
    }
}

/// Where an argument is set more than once, the last time counts. So the command line goes before
/// the configuration file, and that before the file `.env`.
pub proof fn last_setting_counts(
    env: Variables,
    pairs: Seq<PairText>,
    last: int,
    name: Seq<char>,
)
    requires
        0 <= last < pairs.len(),
        env.key(arg_variable(pairs[last].0)) == env.key(arg_variable(name)),
        forall|j: int|
            last < j < pairs.len() ==> env.key(arg_variable((#[trigger] pairs[j]).0)) != env.key(
                arg_variable(name),
            ),
    ensures
        assigned(env, pairs).has(arg_variable(name)),
        assigned(env, pairs).value(arg_variable(name)) == pairs[last].1,
        arg_value(assigned(env, pairs), name) == Some(pairs[last].1),
    decreases pairs.len(),
{
    lemma_assigned_key(env, pairs);
    lemma_assigned_key(env, pairs.drop_last());
    if last < pairs.len() - 1 {
        assert(env.key(arg_variable(pairs[pairs.len() - 1].0)) != env.key(arg_variable(name)));
        assert forall|j: int| last < j < pairs.len() - 1 implies env.key(
            arg_variable((#[trigger] pairs.drop_last()[j]).0),
        ) != env.key(arg_variable(name)) by {
            assert(pairs.drop_last()[j] == pairs[j]);
        }
        last_setting_counts(env, pairs.drop_last(), last, name);
    }
}

/// A variable that no argument is kept in stays as it is.
pub proof fn unset_arguments_stay(env: Variables, pairs: Seq<PairText>, variable: Seq<char>)
    requires
        forall|j: int|
            0 <= j < pairs.len() ==> env.key(arg_variable((#[trigger] pairs[j]).0)) != env.key(
                variable,
            ),
    ensures
        assigned(env, pairs).has(variable) == env.has(variable),
        assigned(env, pairs).value(variable) == env.value(variable),
        assigned(env, pairs).lists(variable) == env.lists(variable),
    decreases pairs.len(),
{
    lemma_assigned_key(env, pairs);
    if pairs.len() > 0 {
        let rest = pairs.drop_last();
        lemma_assigned_key(env, rest);
        assert forall|j: int| 0 <= j < rest.len() implies env.key(
            arg_variable((#[trigger] rest[j]).0),
        ) != env.key(variable) by {
            assert(rest[j] == pairs[j]);
        }
        unset_arguments_stay(env, rest, variable);
        assert(env.key(arg_variable(pairs[pairs.len() - 1].0)) != env.key(variable));
    }
}

}
