//! The variables of a process.

use vstd::prelude::*;

use crate::text::{has_char, same_text, uppercase};

verus! {

/// Variables, each with its name and its value. Those that are no text have no part in it.
pub struct Environment {
    ignores_case: bool,
    vars: Vec<(String, String)>,
}

/// An `Environment` as mathematics has it.
pub struct Variables {
    /// Whether names that differ in case are the same, as on Windows.
    pub ignores_case: bool,
    /// By what makes it the same: the name of each variable, as it is written, and its value.
    pub vars: Map<Seq<char>, (Seq<char>, Seq<char>)>,
}

impl Variables {
    /// What makes two names the same.
    pub open spec fn key(self, name: Seq<char>) -> Seq<char> {
        if self.ignores_case {
            uppercase(name)
        } else {
            name
        }
    }

    /// Every variable is found by its name, and they can be counted.
    pub open spec fn wf(self) -> bool {
        &&& forall|key: Seq<char>| #[trigger]
            self.vars.contains_key(key) ==> self.key(self.vars[key].0) == key
        &&& self.vars.dom().finite()
    }

    /// Whether the variable `name` is set.
    pub open spec fn has(self, name: Seq<char>) -> bool {
        self.vars.contains_key(self.key(name))
    }

    /// The value of the variable `name`.
    pub open spec fn value(self, name: Seq<char>) -> Seq<char> {
        self.vars[self.key(name)].1
    }

    /// Whether a variable is set whose name is written as `name` is.
    pub open spec fn lists(self, name: Seq<char>) -> bool {
        self.has(name) && self.vars[self.key(name)].0 == name
    }

    /// The variables after `name` was given the value `value`.
    pub open spec fn with(self, name: Seq<char>, value: Seq<char>) -> Variables {
        Variables { vars: self.vars.insert(self.key(name), (name, value)), ..self }
    }
}

/// What makes the name of a variable the same as another.
spec fn key_of(ignores_case: bool, name: Seq<char>) -> Seq<char> {
    if ignores_case {
        uppercase(name)
    } else {
        name
    }
}

/// The variables in `vars`, of which a later one replaces an earlier one of the same name.
spec fn vars_map(ignores_case: bool, vars: Seq<(String, String)>) -> Map<
    Seq<char>,
    (Seq<char>, Seq<char>),
>
    decreases vars.len(),
{
    if vars.len() == 0 {
        Map::empty()
    } else {
        vars_map(ignores_case, vars.drop_last()).insert(
            key_of(ignores_case, vars.last().0@),
            (vars.last().0@, vars.last().1@),
        )
    }
}

/// Whether no two of `vars` have the same name.
spec fn distinct_names(ignores_case: bool, vars: Seq<(String, String)>) -> bool {
    forall|i: int, j: int|
        0 <= i < j < vars.len() ==> key_of(ignores_case, #[trigger] vars[i].0@) != key_of(
            ignores_case,
            #[trigger] vars[j].0@,
        )
}

proof fn lemma_names(ignores_case: bool, vars: Seq<(String, String)>, key: Seq<char>)
    ensures
        vars_map(ignores_case, vars).contains_key(key) <==> exists|i: int|
            0 <= i < vars.len() && key_of(ignores_case, (#[trigger] vars[i]).0@) == key,
    decreases vars.len(),
{
    if vars.len() > 0 {
        let rest = vars.drop_last();
        lemma_names(ignores_case, rest, key);
        if vars_map(ignores_case, rest).contains_key(key) {
            let i = choose|i: int|
                0 <= i < rest.len() && key_of(ignores_case, (#[trigger] rest[i]).0@) == key;
            assert(vars[i] == rest[i]);
        }
        if exists|i: int|
            0 <= i < vars.len() && key_of(ignores_case, (#[trigger] vars[i]).0@) == key {
            let i = choose|i: int|
                0 <= i < vars.len() && key_of(ignores_case, (#[trigger] vars[i]).0@) == key;
            if i < vars.len() - 1 {
                assert(rest[i] == vars[i]);
            } else {
                assert(vars.last() == vars[i]);
            }
        }
    }
}

proof fn lemma_distinct_rest(ignores_case: bool, vars: Seq<(String, String)>)
    requires
        distinct_names(ignores_case, vars),
        vars.len() > 0,
    ensures
        distinct_names(ignores_case, vars.drop_last()),
{
    let rest = vars.drop_last();
    assert forall|i: int, j: int| 0 <= i < j < rest.len() implies key_of(
        ignores_case,
        #[trigger] rest[i].0@,
    ) != key_of(ignores_case, #[trigger] rest[j].0@) by {
        assert(rest[i] == vars[i] && rest[j] == vars[j]);
    }
}

proof fn lemma_value(ignores_case: bool, vars: Seq<(String, String)>, i: int)
    requires
        distinct_names(ignores_case, vars),
        0 <= i < vars.len(),
    ensures
        vars_map(ignores_case, vars).contains_key(key_of(ignores_case, vars[i].0@)),
        vars_map(ignores_case, vars)[key_of(ignores_case, vars[i].0@)] == (
            vars[i].0@,
            vars[i].1@,
        ),
    decreases vars.len(),
{
    if i < vars.len() - 1 {
        lemma_distinct_rest(ignores_case, vars);
        lemma_value(ignores_case, vars.drop_last(), i);
        assert(vars.drop_last()[i] == vars[i]);
        assert(key_of(ignores_case, vars[i].0@) != key_of(ignores_case, vars[vars.len() - 1].0@));
    }
}

proof fn lemma_replaced(
    ignores_case: bool,
    vars: Seq<(String, String)>,
    i: int,
    new: (String, String),
)
    requires
        distinct_names(ignores_case, vars),
        0 <= i < vars.len(),
        key_of(ignores_case, new.0@) == key_of(ignores_case, vars[i].0@),
    ensures
        vars_map(ignores_case, vars.update(i, new)) == vars_map(ignores_case, vars).insert(
            key_of(ignores_case, new.0@),
            (new.0@, new.1@),
        ),
        distinct_names(ignores_case, vars.update(i, new)),
    decreases vars.len(),
{
    let updated = vars.update(i, new);
    assert forall|a: int, b: int| 0 <= a < b < updated.len() implies key_of(
        ignores_case,
        #[trigger] updated[a].0@,
    ) != key_of(ignores_case, #[trigger] updated[b].0@) by {
        assert(key_of(ignores_case, vars[a].0@) != key_of(ignores_case, vars[b].0@));
    }
    let after = vars_map(ignores_case, vars).insert(
        key_of(ignores_case, new.0@),
        (new.0@, new.1@),
    );
    if i == vars.len() - 1 {
        assert(updated.drop_last() =~= vars.drop_last());
        assert(vars_map(ignores_case, updated) =~= after);
    } else {
        lemma_distinct_rest(ignores_case, vars);
        lemma_replaced(ignores_case, vars.drop_last(), i, new);
        assert(updated.drop_last() =~= vars.drop_last().update(i, new));
        assert(key_of(ignores_case, vars[i].0@) != key_of(ignores_case, vars[vars.len() - 1].0@));
        assert(vars_map(ignores_case, updated) =~= after);
    }
}

proof fn lemma_vars_are_right(ignores_case: bool, vars: Seq<(String, String)>)
    ensures
        vars_map(ignores_case, vars).dom().finite(),
        forall|key: Seq<char>| #[trigger]
            vars_map(ignores_case, vars).contains_key(key) ==> key_of(
                ignores_case,
                vars_map(ignores_case, vars)[key].0,
            ) == key,
    decreases vars.len(),
{
    if vars.len() > 0 {
        lemma_vars_are_right(ignores_case, vars.drop_last());
    }
}

impl View for Environment {
    type V = Variables;

    closed spec fn view(&self) -> Variables {
        Variables {
            ignores_case: self.ignores_case,
            vars: vars_map(self.ignores_case, self.vars@),
        }
    }
}

/// Whether a process can have a variable of this name and value.
pub open spec fn is_settable(name: Seq<char>, value: Seq<char>) -> bool {
    &&& name.len() > 0
    &&& !name.contains('=')
    &&& !name.contains('\0')
    &&& !value.contains('\0')
}

/// Whether a process can have a variable of this name and value.
pub fn settable(name: &str, value: &str) -> (r: bool)
    ensures
        r == is_settable(name@, value@),
{
    !name.is_empty() && !has_char(name, '=') && !has_char(name, '\0') && !has_char(value, '\0')
}

impl Environment {
    #[verifier::type_invariant]
    spec fn well_formed(self) -> bool {
        distinct_names(self.ignores_case, self.vars@)
    }

    /// No variables. `ignores_case` tells whether names that differ in case are the same.
    pub fn new(ignores_case: bool) -> (r: Environment)
        ensures
            r@ == (Variables { ignores_case, vars: Map::empty() }),
    {
        Environment { ignores_case, vars: Vec::new() }
    }

    /// How many variables there are. Each has one place in the order.
    pub fn len(&self) -> (r: usize)
        ensures
            r == self.names().len(),
            r == self@.vars.dom().len(),
            self.names().no_duplicates(),
    {
        proof {
            use_type_invariant(self);
            let ic = self.ignores_case;
            let names = self.names();
            let keys = names.map_values(|name: Seq<char>| key_of(ic, name));
            assert forall|i: int, j: int| 0 <= i < keys.len() && 0 <= j < keys.len() && i
                != j implies keys[i] != keys[j] && names[i] != names[j] by {
                if i < j {
                    assert(key_of(ic, self.vars@[i].0@) != key_of(ic, self.vars@[j].0@));
                } else {
                    assert(key_of(ic, self.vars@[j].0@) != key_of(ic, self.vars@[i].0@));
                }
            }
            assert(keys.no_duplicates());
            assert forall|key: Seq<char>| self@.vars.dom().contains(key)
                == #[trigger] keys.to_set().contains(key) by {
                lemma_names(ic, self.vars@, key);
                if self@.vars.contains_key(key) {
                    let i = choose|i: int|
                        0 <= i < self.vars@.len() && key_of(ic, (#[trigger] self.vars@[i]).0@)
                            == key;
                    assert(keys[i] == key);
                }
                if keys.contains(key) {
                    let i = choose|i: int| 0 <= i < keys.len() && keys[i] == key;
                    assert(key_of(ic, self.vars@[i].0@) == key);
                }
            }
            assert(self@.vars.dom() =~= keys.to_set());
            keys.unique_seq_to_set();
        }
        self.vars.len()
    }

    /// The names of the variables, in some order.
    pub closed spec fn names(&self) -> Seq<Seq<char>> {
        self.vars@.map_values(|var: (String, String)| var.0@)
    }

    /// The name and the value of a variable, by its place in some order.
    pub fn var(&self, i: usize) -> (r: (&String, &String))
        requires
            i < self.names().len(),
        ensures
            r.0@ == self.names()[i as int],
            self@.lists(r.0@),
            self@.value(r.0@) == r.1@,
    {
        proof {
            use_type_invariant(self);
            lemma_value(self.ignores_case, self.vars@, i as int);
        }
        let var: &(String, String) = &self.vars[i];
        (&var.0, &var.1)
    }

    /// Every name that is listed has its place in the order.
    pub proof fn names_are_all(&self)
        ensures
            forall|name: Seq<char>|
                #![trigger self@.lists(name)]
                self@.lists(name) ==> self.names().contains(name),
            self@.wf(),
    {
        let ic = self.ignores_case;
        lemma_vars_are_right(ic, self.vars@);
        assert forall|name: Seq<char>|
            #![trigger self@.lists(name)]
            self@.lists(name) implies self.names().contains(name) by {
            let i = lemma_written_once(ic, self.vars@, key_of(ic, name));
            assert(self.names()[i] == name);
        }
    }

    /// The place of the variable `name`.
    fn find(&self, name: &str) -> (r: Option<usize>)
        ensures
            match r {
                Some(i) => i < self.vars.len() && key_of(
                    self.ignores_case,
                    self.vars@[i as int].0@,
                ) == key_of(self.ignores_case, name@),
                None => !self@.has(name@),
            },
    {
        let mut i: usize = 0;
        while i < self.vars.len()
            invariant
                i <= self.vars.len(),
                forall|j: int|
                    0 <= j < i ==> key_of(self.ignores_case, (#[trigger] self.vars@[j]).0@)
                        != key_of(self.ignores_case, name@),
            decreases self.vars.len() - i,
        {
            let other: &str = self.vars[i].0.as_str();
            let same: bool = if self.ignores_case {
                same_text(other.to_uppercase().as_str(), name.to_uppercase().as_str())
            } else {
                same_text(other, name)
            };
            if same {
                return Some(i);
            }
            i += 1;
        }
        proof {
            lemma_names(self.ignores_case, self.vars@, key_of(self.ignores_case, name@));
        }
        None
    }

    /// The value of the variable `name`.
    pub fn get(&self, name: &str) -> (r: Option<String>)
        ensures
            match r {
                Some(value) => self@.has(name@) && value@ == self@.value(name@),
                None => !self@.has(name@),
            },
    {
        match self.find(name) {
            Some(i) => {
                proof {
                    use_type_invariant(self);
                    lemma_value(self.ignores_case, self.vars@, i as int);
                }
                Some(self.vars[i].1.clone())
            },
            None => None,
        }
    }

    /// Gives the variable `name` the value `value`.
    pub fn put(&mut self, name: String, value: String)
        ensures
            final(self)@ == old(self)@.with(name@, value@),
    {
        proof {
            use_type_invariant(&*self);
        }
        let found: Option<usize> = self.find(name.as_str());
        let mut vars: Vec<(String, String)> = Vec::new();
        std::mem::swap(&mut vars, &mut self.vars);
        let ghost ic = self.ignores_case;
        let ghost before = vars@;
        match found {
            Some(i) => {
                proof {
                    lemma_replaced(ic, before, i as int, (name, value));
                }
                vars.set(i, (name, value));
            },
            None => {
                proof {
                    let after = before.push((name, value));
                    lemma_names(ic, before, key_of(ic, name@));
                    assert(after.drop_last() =~= before);
                    assert forall|a: int, b: int| 0 <= a < b < after.len() implies key_of(
                        ic,
                        #[trigger] after[a].0@,
                    ) != key_of(ic, #[trigger] after[b].0@) by {
                        assert(key_of(ic, before[a].0@) != key_of(ic, name@));
                        if b < before.len() {
                            assert(key_of(ic, before[a].0@) != key_of(ic, before[b].0@));
                        }
                    }
                }
                vars.push((name, value));
            },
        }
        self.vars = vars;
    }
}

/// A variable that is set is the last of its name.
proof fn lemma_written_once(ignores_case: bool, vars: Seq<(String, String)>, key: Seq<char>) -> (i:
    int)
    requires
        vars_map(ignores_case, vars).contains_key(key),
    ensures
        0 <= i < vars.len(),
        vars[i].0@ == vars_map(ignores_case, vars)[key].0,
    decreases vars.len(),
{
    if key_of(ignores_case, vars.last().0@) == key {
        vars.len() - 1
    } else {
        let i = lemma_written_once(ignores_case, vars.drop_last(), key);
        assert(vars.drop_last()[i] == vars[i]);
        i
    }
}

}
