use vstd::prelude::*;

use crate::error::ScopError;
use crate::scope_id::random_scope_id;
use crate::table::Table;

verus! {

/// A value type for environments that bind names to integers.
pub type Term = i32;

/// The identifier of the outermost scope.
pub open spec fn global_id() -> Seq<char> {
    seq!['g', 'l', 'o', 'b', 'a', 'l']
}

/// What a scope environment holds: a registry from scope identifiers to
/// binding tables, and the stack of active scopes, outermost first.
pub struct DefsView<T> {
    pub registry: Map<Seq<char>, Map<Seq<char>, T>>,
    pub stack: Seq<Seq<char>>,
}

/// The value that `name` resolves to through `stack`: the binding of the
/// innermost scope on the stack whose table holds `name`.
pub open spec fn resolve<T>(
    registry: Map<Seq<char>, Map<Seq<char>, T>>,
    stack: Seq<Seq<char>>,
    name: Seq<char>,
) -> Option<T>
    decreases stack.len(),
{
    if stack.len() == 0 {
        None
    } else if registry.contains_key(stack.last()) && registry[stack.last()].contains_key(name) {
        Some(registry[stack.last()][name])
    } else {
        resolve(registry, stack.drop_last(), name)
    }
}

/// The registry after `name` is bound to `value` in the table of `scope`,
/// which starts out empty where `scope` has no table yet.
pub open spec fn bind<T>(
    registry: Map<Seq<char>, Map<Seq<char>, T>>,
    scope: Seq<char>,
    name: Seq<char>,
    value: T,
) -> Map<Seq<char>, Map<Seq<char>, T>> {
    let table = if registry.contains_key(scope) {
        registry[scope]
    } else {
        Map::empty()
    };
    registry.insert(scope, table.insert(name, value))
}

impl<T> DefsView<T> {
    /// Every scope on the stack has a table, and the stack starts with the
    /// global scope.
    pub open spec fn wf(self) -> bool {
        &&& self.stack.len() > 0
        &&& self.stack[0] == global_id()
        &&& forall|j: int| 0 <= j < self.stack.len() ==> self.registry.contains_key(#[trigger] self.stack[j])
    }

    /// The value that `name` resolves to.
    pub open spec fn lookup(self, name: Seq<char>) -> Option<T> {
        resolve(self.registry, self.stack, name)
    }

    /// The environment after `name` is bound to `value` in `scope`.
    pub open spec fn bind(self, scope: Seq<char>, name: Seq<char>, value: T) -> DefsView<T> {
        DefsView { registry: bind(self.registry, scope, name, value), stack: self.stack }
    }

    /// The environment after a scope `id` with an empty table is pushed.
    pub open spec fn push_scope(self, id: Seq<char>) -> DefsView<T> {
        DefsView { registry: self.registry.insert(id, Map::empty()), stack: self.stack.push(id) }
    }
}

/// The tables of a registry, seen as maps.
pub(crate) open spec fn tables_view<T>(defs: Table<Table<T>>) -> Map<Seq<char>, Map<Seq<char>, T>> {
    defs@.map_values(|t: Table<T>| t@)
}

/// A sequence of scope identifiers, seen as character sequences.
pub(crate) open spec fn ids_view(ids: Seq<String>) -> Seq<Seq<char>> {
    ids.map_values(|s: String| s@)
}

/// The registry and every table in it keep their keys distinct.
pub(crate) open spec fn tables_wf<T>(defs: Table<Table<T>>) -> bool {
    &&& defs.wf()
    &&& forall|k: Seq<char>| defs@.contains_key(k) ==> (#[trigger] defs@[k]).wf()
}

/// A registry that holds an empty table for the global scope only.
pub(crate) fn new_registry<T>() -> (defs: Table<Table<T>>)
    ensures
        tables_wf(defs),
        tables_view(defs) == map![global_id() => Map::<Seq<char>, T>::empty()],
{
    let mut defs: Table<Table<T>> = Table::new();
    defs.insert(global_name(), Table::new());
    proof {
        assert(tables_view(defs) =~= map![global_id() => Map::<Seq<char>, T>::empty()]);
    }
    defs
}

/// The identifier of the global scope, as a string.
pub(crate) fn global_name() -> (g: String)
    ensures
        g@ == global_id(),
{
    let g = "global".to_owned();
    proof {
        reveal_strlit("global");
        assert(g@ =~= global_id());
    }
    g
}

/// Registers an empty table under `id`, replacing any table it had.
pub(crate) fn register_scope<T>(defs: &mut Table<Table<T>>, id: &str)
    requires
        tables_wf(*old(defs)),
    ensures
        tables_wf(*final(defs)),
        tables_view(*final(defs)) == tables_view(*old(defs)).insert(id@, Map::empty()),
{
    defs.insert(id.to_owned(), Table::new());
    proof {
        assert(tables_view(*defs) =~= tables_view(*old(defs)).insert(id@, Map::empty()));
    }
}

/// Binds `name` to `value` in the table of `scope`, which gets an empty table
/// first where it has none.
pub(crate) fn bind_in<T>(defs: &mut Table<Table<T>>, scope: &str, name: &str, value: T)
    requires
        tables_wf(*old(defs)),
    ensures
        tables_wf(*final(defs)),
        tables_view(*final(defs)) == bind(tables_view(*old(defs)), scope@, name@, value),
{
    let key = scope.to_owned();
    let mut table = match defs.replace(key.clone(), Table::new()) {
        Some(t) => t,
        None => Table::new(),
    };
    table.insert(name.to_owned(), value);
    defs.insert(key, table);
    proof {
        assert(tables_view(*defs) =~= bind(tables_view(*old(defs)), scope@, name@, value));
    }
}

/// Searches the tables of `scopes` from the last to the first for `id`, and
/// returns a clone of the first binding found.
pub(crate) fn resolve_in<T: Clone>(defs: &Table<Table<T>>, scopes: &Vec<String>, id: &str) -> (r:
    Option<T>)
    requires
        tables_wf(*defs),
        forall|j: int|
            0 <= j < scopes@.len() ==> tables_view(*defs).contains_key(
                #[trigger] ids_view(scopes@)[j],
            ),
    ensures
        match r {
            Some(v) => resolve(tables_view(*defs), ids_view(scopes@), id@) matches Some(w) && cloned(
                w,
                v,
            ),
            None => resolve(tables_view(*defs), ids_view(scopes@), id@) is None,
        },
{
    let ghost registry = tables_view(*defs);
    let ghost stack = ids_view(scopes@);
    let key = id.to_owned();
    let mut i: usize = scopes.len();
    proof {
        assert(stack.take(i as int) =~= stack);
    }
    while i > 0
        invariant
            tables_wf(*defs),
            registry == tables_view(*defs),
            stack == ids_view(scopes@),
            forall|j: int| 0 <= j < scopes@.len() ==> registry.contains_key(#[trigger] stack[j]),
            i <= scopes@.len(),
            key@ == id@,
            resolve(registry, stack, id@) == resolve(registry, stack.take(i as int), id@),
        decreases i,
    {
        let scope = &scopes[i - 1];
        proof {
            assert(stack[i - 1] == scope@);
            assert(registry.contains_key(stack[i - 1]));
            assert(stack.take(i as int).last() == scope@);
            assert(stack.take(i - 1) =~= stack.take(i as int).drop_last());
        }
        match defs.get(scope) {
            Some(table) => {
                if let Some(v) = table.get(&key) {
                    return Some(v.clone());
                }
            },
            None => {
                proof {
                    assert(false);
                }
                return None;
            },
        }
        i = i - 1;
    }
    None
}

/// A lexically scoped symbol table: names bound to values in nested scopes,
/// resolved from the innermost active scope outwards.
#[derive(Debug, Clone)]
pub struct Defs<T> {
    defs: Table<Table<T>>,
    scopes: Vec<String>,
}

impl<T> View for Defs<T> {
    type V = DefsView<T>;

    closed spec fn view(&self) -> DefsView<T> {
        DefsView { registry: tables_view(self.defs), stack: ids_view(self.scopes@) }
    }
}

impl<T> Defs<T> {
    /// The registry and every table in it keep their keys distinct, and the
    /// model is well formed.
    pub closed spec fn wf(&self) -> bool {
        &&& tables_wf(self.defs)
        &&& self@.wf()
    }
}

impl<T: Clone> Defs<T> {
    /// An environment whose only scope is the global one, with no bindings.
    pub fn new() -> (d: Self)
        ensures
            d.wf(),
            d@.registry == map![global_id() => Map::<Seq<char>, T>::empty()],
            d@.stack == seq![global_id()],
            forall|x: Seq<char>| #[trigger] d@.lookup(x) == None::<T>,
    {
        let defs = new_registry();
        let scopes = vec![global_name()];
        let d = Defs { defs, scopes };
        proof {
            assert(d@.stack =~= seq![global_id()]);
            assert forall|x: Seq<char>| #[trigger] d@.lookup(x) == None::<T> by {
                assert(d@.stack.drop_last().len() == 0);
                assert(resolve(d@.registry, d@.stack.drop_last(), x) == None::<T>);
            }
        }
        d
    }

    /// Creates a scope under a fresh random identifier, registers an empty
    /// table for it, pushes it on the stack and returns the identifier.
    pub fn create_uuid_scope(&mut self) -> (r: String)
        requires
            old(self).wf(),
        ensures
            final(self).wf(),
            final(self)@ == old(self)@.push_scope(r@),
            r@.len() == 36,
            r@ != global_id(),
    {
        let new_scope = random_scope_id();
        self.create_named_scope(new_scope.as_str());
        new_scope
    }

    /// Creates a scope under the identifier `new_scope`: its table starts out
    /// empty, replacing any table the identifier had, and it is pushed on the
    /// stack.
    pub fn create_named_scope(&mut self, new_scope: &str)
        requires
            old(self).wf(),
        ensures
            final(self).wf(),
            final(self)@ == old(self)@.push_scope(new_scope@),
    {
        register_scope(&mut self.defs, new_scope);
        self.scopes.push(new_scope.to_owned());
        proof {
            assert(self@.stack =~= old(self)@.stack.push(new_scope@));
            assert forall|j: int| 0 <= j < self@.stack.len() implies self@.registry.contains_key(
                #[trigger] self@.stack[j],
            ) by {
                if j < old(self)@.stack.len() {
                    assert(old(self)@.registry.contains_key(old(self)@.stack[j]));
                }
            }
        }
    }

    /// Binds `name` to `value` in the table of `scope`, replacing an earlier
    /// binding of `name` there. A scope without a table gets an empty one
    /// first, whether or not it is on the stack. Always succeeds.
    pub fn insert(&mut self, scope: &str, name: &str, value: T) -> (r: Result<(), ScopError>)
        requires
            old(self).wf(),
        ensures
            final(self).wf(),
            r is Ok,
            final(self)@ == old(self)@.bind(scope@, name@, value),
    {
        bind_in(&mut self.defs, scope, name, value);
        proof {
            assert forall|j: int| 0 <= j < self@.stack.len() implies self@.registry.contains_key(
                #[trigger] self@.stack[j],
            ) by {
                assert(old(self)@.registry.contains_key(old(self)@.stack[j]));
            }
        }
        Ok(())
    }

    /// The value that `id` resolves to: a clone of its binding in the
    /// innermost scope on the stack that binds it, or `None` where no scope on
    /// the stack does.
    pub fn substitute(&self, id: &str) -> (r: Option<T>)
        requires
            self.wf(),
        ensures
            match r {
                Some(v) => self@.lookup(id@) matches Some(w) && cloned(w, v),
                None => self@.lookup(id@) is None,
            },
    {
        resolve_in(&self.defs, &self.scopes, id)
    }
}

} // verus!
