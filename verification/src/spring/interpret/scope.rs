//! The values of the variables in scope while evaluating.

use crate::spring::interpret::{Value, ValueV};
use vstd::prelude::*;

verus! {

/// The variables of one scope with their values, and the enclosing scope,
/// whose variables are visible where this scope does not declare them.
#[derive(Debug, Default)]
pub struct Scope<'src, 'scope> {
    vars: Vec<(String, Value<'src>)>,
    parent: Option<&'scope Scope<'src, 'scope>>,
}

/// The variables declared in `vars`: where a name occurs twice the first
/// occurrence counts.
pub open spec fn local_values<'src>(vars: Seq<(String, Value<'src>)>) -> Map<Seq<char>, ValueV>
    decreases vars.len(),
{
    if vars.len() == 0 {
        Map::empty()
    } else {
        local_values(vars.drop_first()).insert(vars[0].0@, vars[0].1@)
    }
}

proof fn lemma_local_values_push<'src>(vars: Seq<(String, Value<'src>)>, entry: (String, Value<'src>))
    requires
        !local_values(vars).contains_key(entry.0@),
    ensures
        local_values(vars.push(entry)) == local_values(vars).insert(entry.0@, entry.1@),
    decreases vars.len(),
{
    let pushed = vars.push(entry);
    assert(pushed[pushed.len() - 1] == entry);
    if vars.len() == 0 {
        assert(pushed.drop_first() =~= Seq::<(String, Value<'src>)>::empty());
        assert(pushed[0] == entry);
        assert(local_values(pushed.drop_first()) == Map::<Seq<char>, ValueV>::empty());
        assert(local_values(pushed) =~= local_values(vars).insert(entry.0@, entry.1@));
    } else {
        assert(pushed.drop_first() =~= vars.drop_first().push(entry));
        assert(pushed[0] == vars[0]);
        lemma_local_values_push(vars.drop_first(), entry);
        assert(local_values(pushed) =~= local_values(vars).insert(entry.0@, entry.1@));
    }
}

proof fn lemma_local_values_find<'src>(vars: Seq<(String, Value<'src>)>, i: int)
    requires
        0 <= i < vars.len(),
        forall|j: int| 0 <= j < i ==> (#[trigger] vars[j]).0@ != vars[i].0@,
    ensures
        local_values(vars).contains_key(vars[i].0@),
        local_values(vars)[vars[i].0@] == vars[i].1@,
    decreases i,
{
    if i > 0 {
        let rest = vars.drop_first();
        assert forall|j: int| 0 <= j < i - 1 implies (#[trigger] rest[j]).0@ != rest[i - 1].0@ by {
            assert(rest[j] == vars[j + 1]);
        }
        lemma_local_values_find(rest, i - 1);
    }
}

proof fn lemma_local_values_absent<'src>(vars: Seq<(String, Value<'src>)>, name: Seq<char>)
    requires
        forall|j: int| 0 <= j < vars.len() ==> (#[trigger] vars[j]).0@ != name,
    ensures
        !local_values(vars).contains_key(name),
    decreases vars.len(),
{
    if vars.len() > 0 {
        let rest = vars.drop_first();
        assert forall|j: int| 0 <= j < rest.len() implies (#[trigger] rest[j]).0@ != name by {
            assert(rest[j] == vars[j + 1]);
        }
        lemma_local_values_absent(rest, name);
    }
}

impl<'src, 'scope> Scope<'src, 'scope> {
    /// The variables visible in this scope with their values.
    pub closed spec fn view_map(&self) -> Map<Seq<char>, ValueV>
        decreases self,
    {
        match self.parent {
            Some(p) => p.view_map().union_prefer_right(local_values(self.vars@)),
            None => local_values(self.vars@),
        }
    }

    /// Whether this scope itself declares `name`.
    pub closed spec fn declares(&self, name: Seq<char>) -> bool {
        local_values(self.vars@).contains_key(name)
    }

    pub fn new() -> (scope: Self)
        ensures
            scope.view_map() == Map::<Seq<char>, ValueV>::empty(),
            forall|name: Seq<char>| !scope.declares(name),
    {
        Scope { vars: Vec::new(), parent: None }
    }

    /// A new, empty scope inside this one.
    pub fn enter_scope(&'scope self) -> (scope: Scope<'src, 'scope>)
        ensures
            scope.view_map() == self.view_map(),
            forall|name: Seq<char>| !scope.declares(name),
    {
        let scope = Scope { vars: Vec::new(), parent: Some(self) };
        assert(scope.view_map() =~= self.view_map());
        scope
    }

    /// Declares `ident` with value `value` in this scope.
    pub fn set(&mut self, ident: &str, value: Value<'src>)
        requires
            !old(self).declares(ident@),
        ensures
            final(self).view_map() == old(self).view_map().insert(ident@, value@),
            forall|name: Seq<char>| #[trigger] final(self).declares(name) == (old(self).declares(name) || name == ident@),
    {
        let ghost old_vars = self.vars@;
        let entry = (ident.to_owned(), value);
        proof {
            lemma_local_values_push(old_vars, entry);
        }
        self.vars.push(entry);
        assert(final(self).view_map() =~= old(self).view_map().insert(ident@, value@));
    }

    /// The value of the variable named `ident`, looked up here and then in
    /// the enclosing scopes.
    pub fn get(&self, ident: &str) -> (value: Option<&Value<'src>>)
        ensures
            value is Some == self.view_map().contains_key(ident@),
            value matches Some(v) ==> v@ == self.view_map()[ident@],
        decreases self,
    {
        let key = ident.to_owned();
        let mut i: usize = 0;
        while i < self.vars.len()
            invariant
                i <= self.vars@.len(),
                key@ == ident@,
                forall|j: int| 0 <= j < i ==> (#[trigger] self.vars@[j]).0@ != key@,
            decreases self.vars@.len() - i,
        {
            if self.vars[i].0 == key {
                proof {
                    lemma_local_values_find(self.vars@, i as int);
                }
                return Some(&self.vars[i].1);
            }
            i = i + 1;
        }
        proof {
            lemma_local_values_absent(self.vars@, key@);
        }
        match self.parent {
            Some(p) => p.get(ident),
            None => None,
        }
    }
}

} // verus!
