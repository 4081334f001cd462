//! The types of the variables in scope while type checking.

use crate::spring::type_tree::data::{Ident, Type, TypeKindV};
use vstd::prelude::*;

verus! {

/// The variables of one scope with their types, and the enclosing scope,
/// whose variables are visible where this scope does not declare them.
#[derive(Debug, Default)]
pub struct Scope<'a> {
    vars: Vec<(String, Type)>,
    parent: Option<&'a Scope<'a>>,
}

/// The variables declared in `vars`: where a name occurs twice the first
/// occurrence counts.
pub open spec fn local_map(vars: Seq<(String, Type)>) -> Map<Seq<char>, TypeKindV>
    decreases vars.len(),
{
    if vars.len() == 0 {
        Map::empty()
    } else {
        local_map(vars.drop_first()).insert(vars[0].0@, vars[0].1@)
    }
}

proof fn lemma_local_map_push(vars: Seq<(String, Type)>, entry: (String, Type))
    requires
        !local_map(vars).contains_key(entry.0@),
    ensures
        local_map(vars.push(entry)) == local_map(vars).insert(entry.0@, entry.1@),
    decreases vars.len(),
{
    let pushed = vars.push(entry);
    assert(pushed[pushed.len() - 1] == entry);
    if vars.len() == 0 {
        assert(pushed.drop_first() =~= Seq::<(String, Type)>::empty());
        assert(pushed[0] == entry);
        assert(local_map(pushed.drop_first()) == Map::<Seq<char>, TypeKindV>::empty());
        assert(local_map(pushed) =~= local_map(vars).insert(entry.0@, entry.1@));
    } else {
        assert(pushed.drop_first() =~= vars.drop_first().push(entry));
        assert(pushed[0] == vars[0]);
        assert(!local_map(vars.drop_first()).contains_key(entry.0@) || vars[0].0@ == entry.0@);
        lemma_local_map_push(vars.drop_first(), entry);
        assert(local_map(vars.push(entry)) =~= local_map(vars).insert(entry.0@, entry.1@));
    }
}

/// Looking a name up in `vars` from the front finds what `local_map` says.
proof fn lemma_local_map_find(vars: Seq<(String, Type)>, i: int)
    requires
        0 <= i < vars.len(),
        forall|j: int| 0 <= j < i ==> (#[trigger] vars[j]).0@ != vars[i].0@,
    ensures
        local_map(vars).contains_key(vars[i].0@),
        local_map(vars)[vars[i].0@] == vars[i].1@,
    decreases i,
{
    if i > 0 {
        let rest = vars.drop_first();
        assert forall|j: int| 0 <= j < i - 1 implies (#[trigger] rest[j]).0@ != rest[i - 1].0@ by {
            assert(rest[j] == vars[j + 1]);
        }
        lemma_local_map_find(rest, i - 1);
    }
}

proof fn lemma_local_map_absent(vars: Seq<(String, Type)>, name: Seq<char>)
    requires
        forall|j: int| 0 <= j < vars.len() ==> (#[trigger] vars[j]).0@ != name,
    ensures
        !local_map(vars).contains_key(name),
    decreases vars.len(),
{
    if vars.len() > 0 {
        let rest = vars.drop_first();
        assert forall|j: int| 0 <= j < rest.len() implies (#[trigger] rest[j]).0@ != name by {
            assert(rest[j] == vars[j + 1]);
        }
        lemma_local_map_absent(rest, name);
    }
}

impl<'a> Scope<'a> {
    /// The variables visible in this scope with their types.
    pub closed spec fn view_map(&self) -> Map<Seq<char>, TypeKindV>
        decreases self,
    {
        match self.parent {
            Some(p) => p.view_map().union_prefer_right(local_map(self.vars@)),
            None => local_map(self.vars@),
        }
    }

    /// Whether this scope itself declares `name`.
    pub closed spec fn declares(&self, name: Seq<char>) -> bool {
        local_map(self.vars@).contains_key(name)
    }

    pub fn new() -> (scope: Self)
        ensures
            scope.view_map() == Map::<Seq<char>, TypeKindV>::empty(),
            forall|name: Seq<char>| !scope.declares(name),
    {
        Scope { vars: Vec::new(), parent: None }
    }

    /// A new, empty scope inside this one.
    pub fn enter_scope(&'a self) -> (scope: Scope<'a>)
        ensures
            scope.view_map() == self.view_map(),
            forall|name: Seq<char>| !scope.declares(name),
    {
        let scope = Scope { vars: Vec::new(), parent: Some(self) };
        assert(scope.view_map() =~= self.view_map());
        scope
    }

    /// Declares `ident` with type `ty` in this scope.
    pub fn set(&mut self, ident: &str, ty: Type)
        requires
            !old(self).declares(ident@),
        ensures
            final(self).view_map() == old(self).view_map().insert(ident@, ty@),
            forall|name: Seq<char>| #[trigger] final(self).declares(name) == (old(self).declares(name) || name == ident@),
    {
        let ghost old_vars = self.vars@;
        let entry = (ident.to_owned(), ty);
        proof {
            lemma_local_map_push(old_vars, entry);
        }
        self.vars.push(entry);
        assert(final(self).view_map() =~= old(self).view_map().insert(ident@, ty@));
    }

    /// The type of the variable named `ident`, looked up here and then in the
    /// enclosing scopes.
    pub fn get(&self, ident: &Ident) -> (ty: Option<&Type>)
        ensures
            ty is Some == self.view_map().contains_key(ident.name@),
            ty matches Some(t) ==> t@ == self.view_map()[ident.name@],
        decreases self,
    {
        let key = ident.name.to_owned();
        let mut i: usize = 0;
        while i < self.vars.len()
            invariant
                i <= self.vars@.len(),
                key@ == ident.name@,
                forall|j: int| 0 <= j < i ==> (#[trigger] self.vars@[j]).0@ != key@,
            decreases self.vars@.len() - i,
        {
            if self.vars[i].0 == key {
                proof {
                    lemma_local_map_find(self.vars@, i as int);
                }
                return Some(&self.vars[i].1);
            }
            i = i + 1;
        }
        proof {
            lemma_local_map_absent(self.vars@, key@);
        }
        match self.parent {
            Some(p) => p.get(ident),
            None => None,
        }
    }
}

} // verus!
