use vstd::prelude::*;

use crate::env::{bind, global_id, resolve, DefsView};

verus! {

proof fn lemma_resolve_reaches_global<T>(
    registry: Map<Seq<char>, Map<Seq<char>, T>>,
    stack: Seq<Seq<char>>,
    name: Seq<char>,
    value: T,
)
    requires
        registry.contains_key(global_id()),
        registry[global_id()].contains_key(name),
        registry[global_id()][name] == value,
        stack.len() > 0,
        stack[0] == global_id(),
        forall|j: int|
            0 <= j < stack.len() && #[trigger] stack[j] != global_id() ==> !(registry.contains_key(
                stack[j],
            ) && registry[stack[j]].contains_key(name)),
    ensures
        resolve(registry, stack, name) == Some(value),
    decreases stack.len(),
{
    if stack.last() != global_id() {
        let p = stack.drop_last();
        assert(stack[stack.len() - 1] != global_id());
        assert forall|j: int|
            0 <= j < p.len() && #[trigger] p[j] != global_id() implies !(registry.contains_key(p[j])
            && registry[p[j]].contains_key(name)) by {
            assert(p[j] == stack[j]);
        }
        lemma_resolve_reaches_global(registry, p, name, value);
    }
}

proof fn lemma_resolve_ignores_unstacked<T>(
    registry: Map<Seq<char>, Map<Seq<char>, T>>,
    stack: Seq<Seq<char>>,
    scope: Seq<char>,
    name: Seq<char>,
    value: T,
    x: Seq<char>,
)
    requires
        !stack.contains(scope),
    ensures
        resolve(bind(registry, scope, name, value), stack, x) == resolve(registry, stack, x),
    decreases stack.len(),
{
    if stack.len() > 0 {
        let p = stack.drop_last();
        assert(stack.last() != scope);
        assert(!p.contains(scope)) by {
            if p.contains(scope) {
                let j = choose|j: int| 0 <= j < p.len() && p[j] == scope;
                assert(stack[j] == scope);
            }
        }
        lemma_resolve_ignores_unstacked(registry, p, scope, name, value, x);
    }
}

/// Binding a name in the global scope makes it resolve to the bound value,
/// as long as no other scope on the stack binds that name.
pub proof fn law_global_binding_resolves<T>(d: DefsView<T>, name: Seq<char>, value: T)
    requires
        d.wf(),
        forall|j: int|
            0 <= j < d.stack.len() && #[trigger] d.stack[j] != global_id() ==> !d.registry[d.stack[
                j
            ]].contains_key(name),
    ensures
        d.bind(global_id(), name, value).lookup(name) == Some(value),
{
    let e = d.bind(global_id(), name, value);
    assert forall|j: int|
        0 <= j < e.stack.len() && #[trigger] e.stack[j] != global_id() implies !(
        e.registry.contains_key(e.stack[j]) && e.registry[e.stack[j]].contains_key(name)) by {
        assert(d.registry.contains_key(d.stack[j]));
    }
    lemma_resolve_reaches_global(e.registry, e.stack, name, value);
}

/// A binding in an inner scope shadows the global binding of the same name,
/// and the global table keeps its own value.
pub proof fn law_inner_scope_shadows<T>(
    d: DefsView<T>,
    scope: Seq<char>,
    name: Seq<char>,
    outer: T,
    inner: T,
)
    requires
        d.wf(),
        scope != global_id(),
    ensures
        ({
            let e = d.bind(global_id(), name, outer).push_scope(scope).bind(scope, name, inner);
            &&& e.lookup(name) == Some(inner)
            &&& e.registry[global_id()][name] == outer
        }),
{
}

/// A binding in a scope that is not on the stack changes no resolution.
pub proof fn law_unstacked_scope_invisible<T>(
    d: DefsView<T>,
    scope: Seq<char>,
    name: Seq<char>,
    value: T,
    x: Seq<char>,
)
    requires
        d.wf(),
        !d.stack.contains(scope),
    ensures
        d.bind(scope, name, value).lookup(x) == d.lookup(x),
{
    lemma_resolve_ignores_unstacked(d.registry, d.stack, scope, name, value, x);
}

/// Of two child scopes created one after the other that both bind a name,
/// the one created last decides what the name resolves to.
pub proof fn law_latest_scope_wins<T>(
    d: DefsView<T>,
    first: Seq<char>,
    second: Seq<char>,
    name: Seq<char>,
    v1: T,
    v2: T,
)
    requires
        d.wf(),
    ensures
        d.push_scope(first).push_scope(second).bind(first, name, v1).bind(second, name, v2).lookup(
            name,
        ) == Some(v2),
{
}

/// Binding a name twice in one scope leaves the environment as binding it
/// once to the later value.
pub proof fn law_rebinding_keeps_latest<T>(
    d: DefsView<T>,
    scope: Seq<char>,
    name: Seq<char>,
    v1: T,
    v2: T,
)
    ensures
        d.bind(scope, name, v1).bind(scope, name, v2) == d.bind(scope, name, v2),
        d.bind(scope, name, v1).bind(scope, name, v2).lookup(name) == d.bind(scope, name, v2).lookup(
            name,
        ),
{
    let a = d.bind(scope, name, v1).bind(scope, name, v2);
    let b = d.bind(scope, name, v2);
    assert(a.registry[scope] =~= b.registry[scope]);
    assert(a.registry =~= b.registry);
}

} // verus!
