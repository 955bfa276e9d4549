use vstd::prelude::*;

use crate::env::{
    bind, bind_in, global_id, global_name, ids_view, new_registry, register_scope, resolve,
    resolve_in, tables_view, tables_wf,
};
use crate::error::ScopError;
use crate::scope_id::random_scope_id;
use crate::table::Table;

verus! {

/// A stack of active scope identifiers, outermost first, held apart from the
/// registry of tables that it is resolved against.
#[derive(Debug, Clone)]
pub struct Scopes(Vec<String>);

impl View for Scopes {
    type V = Seq<Seq<char>>;

    closed spec fn view(&self) -> Seq<Seq<char>> {
        ids_view(self.0@)
    }
}

impl Scopes {
    /// A stack that holds the global scope only.
    pub fn new() -> (s: Self)
        ensures
            s@ == seq![global_id()],
    {
        let s = Scopes(vec![global_name()]);
        proof {
            assert(s@ =~= seq![global_id()]);
        }
        s
    }

    /// Pushes `v` as the innermost scope.
    pub fn push(&mut self, v: String)
        ensures
            final(self)@ == old(self)@.push(v@),
    {
        self.0.push(v);
        proof {
            assert(self@ =~= old(self)@.push(v@));
        }
    }
}

/// A registry from scope identifiers to tables of bindings, resolved through
/// a `Scopes` stack that the caller holds.
#[derive(Debug, Clone)]
pub struct Defs<T>(Table<Table<T>>);

impl<T> View for Defs<T> {
    type V = Map<Seq<char>, Map<Seq<char>, T>>;

    closed spec fn view(&self) -> Map<Seq<char>, Map<Seq<char>, T>> {
        tables_view(self.0)
    }
}

impl<T> Defs<T> {
    /// The registry and every table in it keep their keys distinct.
    pub closed spec fn wf(&self) -> bool {
        tables_wf(self.0)
    }

    /// Every scope on `scopes` has a table in this registry.
    pub open spec fn covers(&self, scopes: Seq<Seq<char>>) -> bool {
        forall|j: int| 0 <= j < scopes.len() ==> self@.contains_key(#[trigger] scopes[j])
    }
}

impl<T: Clone> Defs<T> {
    /// A registry that holds an empty table for the global scope only.
    pub fn new() -> (d: Self)
        ensures
            d.wf(),
            d@ == map![global_id() => Map::<Seq<char>, T>::empty()],
    {
        Defs(new_registry())
    }

    /// Registers an empty table under a fresh random identifier, pushes the
    /// identifier on `scopes` and returns it.
    pub fn create_scope(&mut self, scopes: &mut Scopes) -> (r: String)
        requires
            old(self).wf(),
        ensures
            final(self).wf(),
            final(self)@ == old(self)@.insert(r@, Map::empty()),
            final(scopes)@ == old(scopes)@.push(r@),
            r@.len() == 36,
            r@ != global_id(),
    {
        let new_scope = random_scope_id();
        register_scope(&mut self.0, new_scope.as_str());
        scopes.push(new_scope.clone());
        new_scope
    }

    /// Binds `name` to `value` in the table of `scope`, replacing an earlier
    /// binding of `name` there; a scope without a table gets an empty one
    /// first. Always succeeds.
    pub fn insert(&mut self, scope: &str, name: &str, value: T) -> (r: Result<(), ScopError>)
        requires
            old(self).wf(),
        ensures
            final(self).wf(),
            r is Ok,
            final(self)@ == bind(old(self)@, scope@, name@, value),
    {
        bind_in(&mut self.0, scope, name, value);
        Ok(())
    }

    /// Whether every scope on `scopes` has a table here, as `find` requires.
    pub fn covers_all(&self, scopes: &Scopes) -> (r: bool)
        requires
            self.wf(),
        ensures
            r == self.covers(scopes@),
    {
        let mut i: usize = 0;
        while i < scopes.0.len()
            invariant
                self.wf(),
                i <= scopes@.len(),
                scopes@ == ids_view(scopes.0@),
                forall|j: int| 0 <= j < i ==> self@.contains_key(#[trigger] scopes@[j]),
            decreases scopes.0@.len() - i,
        {
            if self.0.get(&scopes.0[i]).is_none() {
                proof {
                    assert(scopes@[i as int] == scopes.0@[i as int]@);
                    assert(!self.covers(scopes@));
                }
                return false;
            }
            i = i + 1;
        }
        true
    }

    /// The value that `id` resolves to through `scopes`: a clone of its
    /// binding in the innermost scope that binds it, or `None` where none does.
    /// Every scope on `scopes` must have a table here.
    pub fn find(&self, id: &str, scopes: &Scopes) -> (r: Option<T>)
        requires
            self.wf(),
            self.covers(scopes@),
        ensures
            match r {
                Some(v) => resolve(self@, scopes@, id@) matches Some(w) && cloned(w, v),
                None => resolve(self@, scopes@, id@) is None,
            },
    {
        resolve_in(&self.0, &scopes.0, id)
    }
}

} // verus!
