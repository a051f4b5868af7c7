//! Plugins.

use crate::cordis::context::{
    disposed_spec, provided_spec, put_service_lookup, reclaim_lookup, service_at, without_scope,
    Context, ContextView, KindView, ProvidedView, RegistrationView,
};
use vstd::pervasive::arbitrary;
use vstd::prelude::*;

verus! {

/// Whether `b` is `a` after one scope has registered and provided some things:
/// what was registered stays, what is new belongs to the scope, and a service
/// that changed is one that the scope provides.
pub open spec fn grows(a: ContextView, b: ContextView, scope: u64) -> bool {
    &&& a.next <= b.next
    &&& a.root == b.root
    &&& a.dispatching == b.dispatching
    &&& a.registrations.is_prefix_of(b.registrations)
    &&& forall|i: int|
        a.registrations.len() <= i < b.registrations.len() ==> (#[trigger] b.registrations[i]).scope
            == scope
    &&& a.scopes.dom() == b.scopes.dom()
    &&& forall|s: u64|
        a.scopes.contains_key(s) && s != scope ==> #[trigger] b.scopes[s] == a.scopes[s]
    &&& b.scopes[scope].disposed == a.scopes[scope].disposed
    &&& forall|key: u64|
        #[trigger] service_at(b.services, key) == service_at(a.services, key) || (service_at(
            b.services,
            key,
        ) is Some && b.scopes[scope].provided.contains_key(key)
            && b.scopes[scope].provided[key] == service_at(b.services, key)->0.instance)
}

/// What came of applying a plugin.
pub open spec fn applied(r: Result<(), String>) -> Result<(), Seq<char>> {
    match r {
        Ok(_) => Ok(()),
        Err(e) => Err(e@),
    }
}

/// The texts of some names.
pub open spec fn names(v: Seq<&'static str>) -> Seq<Seq<char>> {
    v.map_values(|s: &'static str| s@)
}

/// A plugin: a name, the services that it declares to need, and what it
/// registers in its scope.
pub trait Plugin: Sized {
    /// The options that the plugin takes.
    type Options;

    /// The name of the plugin; nothing is known of it where a plugin does not
    /// state it.
    closed spec fn title(&self) -> Seq<char> {
        arbitrary()
    }

    /// The names of the services that the plugin needs; nothing is known of them
    /// where a plugin does not state them.
    closed spec fn needs(&self) -> Seq<Seq<char>> {
        arbitrary()
    }

    /// How many numbers the plugin takes at most when it is applied; nothing is
    /// known of it where a plugin does not state it.
    closed spec fn demand(&self) -> nat {
        arbitrary()
    }

    /// What applying the plugin may come to: the context after it, and whether it
    /// was done. Anything may come of it where a plugin does not state it.
    open spec fn may_come_to(
        &self,
        before: ContextView,
        scope: u64,
        options: Self::Options,
        after: ContextView,
        r: Result<(), Seq<char>>,
    ) -> bool {
        true
    }

    fn name(&self) -> (r: &'static str)
        ensures
            r@ == self.title(),
    ;

    /// The services that the plugin needs, for display.
    fn inject(&self) -> (r: Vec<&'static str>)
        ensures
            names(r@) == self.needs(),
    ;

    /// Registers what the plugin offers in a scope of its own.
    fn apply(&self, ctx: &mut Context, scope: u64, options: Self::Options) -> (r: Result<
        (),
        String,
    >)
        requires
            old(ctx)@.wf(),
            old(ctx)@.scopes.contains_key(scope),
            old(ctx)@.next + self.demand() <= u64::MAX,
        ensures
            final(ctx)@.wf(),
            grows(old(ctx)@, final(ctx)@, scope),
            self.may_come_to(old(ctx)@, scope, options, final(ctx)@, applied(r)),
    ;
}

/// A context grows by nothing.
pub proof fn grows_reflexive(a: ContextView, scope: u64)
    requires
        a.scopes.contains_key(scope),
    ensures
        grows(a, a, scope),
{
}

/// A context grows when the scope registers something.
pub proof fn grows_registered(a: ContextView, b: ContextView, scope: u64, kind: KindView)
    requires
        grows(a, b, scope),
        a.scopes.contains_key(scope),
        b.next < u64::MAX,
    ensures
        grows(a, b.registered(scope, kind), scope),
{
    let c = b.registered(scope, kind);
    assert(a.registrations =~= c.registrations.take(a.registrations.len() as int));
}

/// A context grows when the scope provides a service.
pub proof fn grows_provided(a: ContextView, b: ContextView, scope: u64, p: ProvidedView)
    requires
        b.wf(),
        grows(a, b, scope),
        a.scopes.contains_key(scope),
    ensures
        grows(a, provided_spec(b, scope, p), scope),
{
    let c = provided_spec(b, scope, p);
    assert(a.scopes.dom() =~= c.scopes.dom());
    assert forall|key: u64|
        #[trigger] service_at(c.services, key) == service_at(a.services, key) || (service_at(
            c.services,
            key,
        ) is Some && c.scopes[scope].provided.contains_key(key)
            && c.scopes[scope].provided[key] == service_at(c.services, key)->0.instance) by {
        put_service_lookup(b.services, p, key);
        assert(service_at(b.services, key) == service_at(a.services, key) || (service_at(
            b.services,
            key,
        ) is Some && b.scopes[scope].provided.contains_key(key)
            && b.scopes[scope].provided[key] == service_at(b.services, key)->0.instance));
    }
}

/// A context grows when a number is given out.
pub proof fn grows_counted(a: ContextView, b: ContextView, scope: u64)
    requires
        grows(a, b, scope),
        b.next < u64::MAX,
    ensures
        grows(a, ContextView { next: (b.next + 1) as u64, ..b }, scope),
{
}

/// Removing what a scope registered at the end leaves what was there before.
pub proof fn without_added(regs: Seq<RegistrationView>, n: int, scope: u64)
    requires
        0 <= n <= regs.len(),
        forall|i: int| n <= i < regs.len() ==> (#[trigger] regs[i]).scope == scope,
        forall|i: int| 0 <= i < n ==> (#[trigger] regs[i]).scope != scope,
    ensures
        without_scope(regs, scope) == regs.take(n),
    decreases regs.len(),
{
    if regs.len() == 0 {
        assert(regs.take(n) =~= Seq::empty());
    } else if n == regs.len() {
        let head = regs.drop_last();
        without_added(head, n - 1, scope);
        assert(regs.take(n) =~= head.take(n - 1).push(regs.last()));
    } else {
        let head = regs.drop_last();
        without_added(head, n, scope);
        assert(regs.take(n) =~= head.take(n));
    }
}

/// Unloading rolls back: when a scope of its own has been added, has grown and
/// is disposed, exactly what was registered before is registered again. A
/// service is what it was, or it is gone because the scope had put another in
/// its place; and it is what it was wherever there was none before.
pub proof fn unload_rolls_back(a: ContextView, forked: ContextView, b: ContextView, scope: u64)
    requires
        a.wf(),
        b.wf(),
        scope == a.next,
        forked.next == a.next + 1,
        forked.root == a.root,
        forked.registrations == a.registrations,
        forked.services == a.services,
        forked.scopes.dom() == a.scopes.dom().insert(scope),
        forall|s: u64| a.scopes.contains_key(s) ==> #[trigger] forked.scopes[s] == a.scopes[s],
        !forked.scopes[scope].disposed,
        grows(forked, b, scope),
    ensures
        disposed_spec(b, scope).registrations == a.registrations,
        forall|key: u64|
            #[trigger] service_at(disposed_spec(b, scope).services, key) == service_at(
                a.services,
                key,
            ) || service_at(disposed_spec(b, scope).services, key) is None,
        forall|key: u64|
            service_at(a.services, key) is None ==> #[trigger] service_at(
                disposed_spec(b, scope).services,
                key,
            ) is None,
        forall|s: u64|
            a.scopes.contains_key(s) ==> #[trigger] disposed_spec(b, scope).scopes[s]
                == a.scopes[s],
        disposed_spec(b, scope).scopes[scope].disposed,
{
    let n = a.registrations.len() as int;
    assert(!a.scopes.contains_key(scope));
    assert forall|i: int| 0 <= i < n implies (#[trigger] b.registrations[i]).scope != scope by {
        assert(b.registrations[i] == a.registrations[i]);
        assert(a.scopes.contains_key(a.registrations[i].scope));
    }
    without_added(b.registrations, n, scope);
    assert(b.registrations.take(n) =~= a.registrations);
    assert forall|key: u64|
        #![trigger service_at(disposed_spec(b, scope).services, key)]
        {
            &&& service_at(disposed_spec(b, scope).services, key) == service_at(a.services, key)
                || service_at(disposed_spec(b, scope).services, key) is None
            &&& service_at(a.services, key) is None ==> service_at(
                disposed_spec(b, scope).services,
                key,
            ) is None
        } by {
        reclaim_lookup(b.services, b.scopes[scope].provided, key);
        assert(service_at(b.services, key) == service_at(forked.services, key) || (service_at(
            b.services,
            key,
        ) is Some && b.scopes[scope].provided.contains_key(key)
            && b.scopes[scope].provided[key] == service_at(b.services, key)->0.instance));
    }
    assert forall|s: u64| a.scopes.contains_key(s) implies #[trigger] disposed_spec(
        b,
        scope,
    ).scopes[s] == a.scopes[s] by {
        assert(forked.scopes.contains_key(s));
        assert(b.scopes[s] == forked.scopes[s]);
    }
}

}  // verus!
