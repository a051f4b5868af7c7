//! The context: one registry of handlers, commands, effects and services, shared
//! by all scopes. Whatever a scope registers is undone when it is disposed.

use crate::cordis::event::Event;
use crate::cordis::service::Service;
use crate::text::order::{in_order, insert_in_order, sort};
use crate::text::split::{split_once, split_once_spec};
use crate::text::trim::{strip_leading, strip_leading_spec, trim, trim_spec};
use crate::text::{holds, join, join_spec, same, texts};
use std::collections::HashMap;
use vstd::prelude::*;

verus! {

broadcast use vstd::std_specs::hash::group_hash_axioms;

/// What was registered: a listener or a hook for an event, a handler of a
/// command, or a plain effect.
pub enum Kind {
    Listener(u64),
    Bailer(u64),
    Command(String),
    Effect,
}

#[verifier::ext_equal]
pub enum KindView {
    Listener(u64),
    Bailer(u64),
    Command(Seq<char>),
    Effect,
}

impl View for Kind {
    type V = KindView;

    open spec fn view(&self) -> KindView {
        match self {
            Kind::Listener(e) => KindView::Listener(*e),
            Kind::Bailer(e) => KindView::Bailer(*e),
            Kind::Command(name) => KindView::Command(name@),
            Kind::Effect => KindView::Effect,
        }
    }
}

/// One registration: its number, the scope that made it, and what it is.
pub struct Registration {
    pub id: u64,
    pub scope: u64,
    pub kind: Kind,
}

#[verifier::ext_equal]
pub struct RegistrationView {
    pub id: u64,
    pub scope: u64,
    pub kind: KindView,
}

impl View for Registration {
    type V = RegistrationView;

    open spec fn view(&self) -> RegistrationView {
        RegistrationView { id: self.id, scope: self.scope, kind: self.kind@ }
    }
}

pub open spec fn registration_views(v: Seq<Registration>) -> Seq<RegistrationView> {
    v.map_values(|r: Registration| r@)
}

/// A service that can be injected: its key and name, and which instance it is.
pub struct Provided {
    pub key: u64,
    pub name: &'static str,
    pub instance: u64,
}

#[verifier::ext_equal]
pub struct ProvidedView {
    pub key: u64,
    pub name: Seq<char>,
    pub instance: u64,
}

impl View for Provided {
    type V = ProvidedView;

    open spec fn view(&self) -> ProvidedView {
        ProvidedView { key: self.key, name: self.name@, instance: self.instance }
    }
}

pub open spec fn provided_views(v: Seq<Provided>) -> Seq<ProvidedView> {
    v.map_values(|p: Provided| p@)
}

/// What belongs to one scope alone.
pub struct Scope {
    pub disposed: bool,
    /// The instances that the scope provides, by the keys of their services.
    pub provided: HashMap<u64, u64>,
    /// The options of the plugin, as they were written.
    pub options: Option<String>,
}

#[verifier::ext_equal]
pub struct ScopeView {
    pub disposed: bool,
    pub provided: Map<u64, u64>,
    pub options: Option<Seq<char>>,
}

impl View for Scope {
    type V = ScopeView;

    open spec fn view(&self) -> ScopeView {
        ScopeView {
            disposed: self.disposed,
            provided: self.provided@,
            options: match self.options {
                Some(s) => Some(s@),
                None => None,
            },
        }
    }
}

impl Scope {
    fn fresh() -> (r: Scope)
        ensures
            r@ == fresh_scope(),
    {
        Scope { disposed: false, provided: HashMap::new(), options: None }
    }
}

/// A scope that nothing has happened in.
pub open spec fn fresh_scope() -> ScopeView {
    ScopeView { disposed: false, provided: Map::empty(), options: None }
}

pub struct Context {
    next: u64,
    root: u64,
    registrations: Vec<Registration>,
    services: Vec<Provided>,
    scopes: HashMap<u64, Scope>,
    dispatching: HashMap<u64, u64>,
}

#[verifier::ext_equal]
pub struct ContextView {
    /// The number that is given out next.
    pub next: u64,
    pub root: u64,
    /// What is registered, in the order in which it was registered.
    pub registrations: Seq<RegistrationView>,
    pub services: Seq<ProvidedView>,
    pub scopes: Map<u64, ScopeView>,
    /// The events that are being dispatched, and the scope that emitted each.
    pub dispatching: Map<u64, u64>,
}

impl View for Context {
    type V = ContextView;

    closed spec fn view(&self) -> ContextView {
        ContextView {
            next: self.next,
            root: self.root,
            registrations: registration_views(self.registrations@),
            services: provided_views(self.services@),
            scopes: scope_views(self.scopes@),
            dispatching: self.dispatching@,
        }
    }
}

pub open spec fn scope_views(m: Map<u64, Scope>) -> Map<u64, ScopeView> {
    Map::new(|k: u64| m.contains_key(k), |k: u64| m[k]@)
}

impl ContextView {
    /// What holds of every context: numbers grow and are not given out twice, a
    /// registration belongs to a scope, and a service is there once.
    pub open spec fn wf(self) -> bool {
        &&& self.scopes.contains_key(self.root)
        &&& forall|s: u64| #[trigger] self.scopes.contains_key(s) ==> s < self.next
        &&& forall|i: int|
            0 <= i < self.registrations.len() ==> (#[trigger] self.registrations[i]).id < self.next
                && self.scopes.contains_key(self.registrations[i].scope)
        &&& forall|i: int, j: int|
            0 <= i < j < self.registrations.len() ==> (#[trigger] self.registrations[i]).id < (
            #[trigger] self.registrations[j]).id
        &&& forall|i: int, j: int|
            0 <= i < j < self.services.len() ==> (#[trigger] self.services[i]).key != (
            #[trigger] self.services[j]).key
    }

    /// The context after one scope has changed.
    pub open spec fn with_scope(self, scope: u64, s: ScopeView) -> ContextView {
        ContextView { scopes: self.scopes.insert(scope, s), ..self }
    }

    /// The context after a scope has registered something.
    pub open spec fn registered(self, scope: u64, kind: KindView) -> ContextView {
        ContextView {
            next: (self.next + 1) as u64,
            registrations: self.registrations.push(
                RegistrationView { id: self.next, scope, kind },
            ),
            ..self
        }
    }
}

// ---- what the registry says ----

/// The numbers of the registrations of a kind, in the order in which they were
/// made.
pub open spec fn ids_of(regs: Seq<RegistrationView>, kind: KindView) -> Seq<u64>
    decreases regs.len(),
{
    if regs.len() == 0 {
        Seq::empty()
    } else {
        let rest = ids_of(regs.drop_last(), kind);
        if regs.last().kind == kind {
            rest.push(regs.last().id)
        } else {
            rest
        }
    }
}

/// The registrations without those of a scope.
pub open spec fn without_scope(regs: Seq<RegistrationView>, scope: u64) -> Seq<RegistrationView>
    decreases regs.len(),
{
    if regs.len() == 0 {
        Seq::empty()
    } else {
        let rest = without_scope(regs.drop_last(), scope);
        if regs.last().scope == scope {
            rest
        } else {
            rest.push(regs.last())
        }
    }
}

/// The numbers of the plain effects of a scope, in the order in which they were
/// registered.
pub open spec fn effects_of(regs: Seq<RegistrationView>, scope: u64) -> Seq<u64>
    decreases regs.len(),
{
    if regs.len() == 0 {
        Seq::empty()
    } else {
        let rest = effects_of(regs.drop_last(), scope);
        if regs.last().scope == scope && regs.last().kind == KindView::Effect {
            rest.push(regs.last().id)
        } else {
            rest
        }
    }
}

/// Where the last registration of a scope stands; -1 where it has none.
pub open spec fn last_of(regs: Seq<RegistrationView>, scope: u64) -> int
    decreases regs.len(),
{
    if regs.len() == 0 {
        -1
    } else if regs.last().scope == scope {
        regs.len() - 1
    } else {
        last_of(regs.drop_last(), scope)
    }
}

/// The service of a key.
pub open spec fn service_at(services: Seq<ProvidedView>, key: u64) -> Option<ProvidedView>
    decreases services.len(),
{
    if services.len() == 0 {
        None
    } else if services.last().key == key {
        Some(services.last())
    } else {
        service_at(services.drop_last(), key)
    }
}

/// Where the service of a key stands; -1 where there is none.
pub open spec fn service_index(services: Seq<ProvidedView>, key: u64) -> int
    decreases services.len(),
{
    if services.len() == 0 {
        -1
    } else if services.last().key == key {
        services.len() - 1
    } else {
        service_index(services.drop_last(), key)
    }
}

/// The services after one has been provided: it takes the place of the one with
/// the same key.
pub open spec fn put_service(services: Seq<ProvidedView>, s: ProvidedView) -> Seq<ProvidedView> {
    let i = service_index(services, s.key);
    if i < 0 {
        services.push(s)
    } else {
        services.update(i, s)
    }
}

/// The services without the instances that a scope provided.
pub open spec fn reclaim(services: Seq<ProvidedView>, provided: Map<u64, u64>) -> Seq<ProvidedView>
    decreases services.len(),
{
    if services.len() == 0 {
        Seq::empty()
    } else {
        let rest = reclaim(services.drop_last(), provided);
        let s = services.last();
        if provided.contains_key(s.key) && provided[s.key] == s.instance {
            rest
        } else {
            rest.push(s)
        }
    }
}

/// Whether a command has a handler.
pub open spec fn has_command(regs: Seq<RegistrationView>, name: Seq<char>) -> bool {
    exists|i: int| 0 <= i < regs.len() && (#[trigger] regs[i]).kind == KindView::Command(name)
}

/// The context after a scope has been disposed.
pub open spec fn disposed_spec(c: ContextView, scope: u64) -> ContextView {
    let s = c.scopes[scope];
    if s.disposed {
        c
    } else {
        ContextView {
            registrations: without_scope(c.registrations, scope),
            services: reclaim(c.services, s.provided),
            scopes: c.scopes.insert(
                scope,
                ScopeView { disposed: true, provided: Map::empty(), ..s },
            ),
            ..c
        }
    }
}

/// A command line without its leading slashes, as a name and what follows it.
pub open spec fn command_parts(line: Seq<char>) -> (Seq<char>, Seq<char>) {
    let t = strip_leading_spec(line, '/');
    match split_once_spec(t, ' ') {
        Some((name, rest)) => (name, trim_spec(rest)),
        None => (t, Seq::empty()),
    }
}

/// Who handles a command line: the handlers, the name of the command and its
/// arguments.
pub struct CommandCall {
    pub handlers: Vec<u64>,
    pub name: String,
    pub args: String,
}

/// The context after a scope has emitted an event: the event is being dispatched.
/// Where it was already, whichever scope had emitted it, the emission is skipped.
pub open spec fn dispatching_spec(c: ContextView, scope: u64, event: u64) -> ContextView {
    if c.dispatching.contains_key(event) {
        c
    } else {
        ContextView { dispatching: c.dispatching.insert(event, scope), ..c }
    }
}

/// The context after a scope has ended the dispatch of an event that it emitted.
pub open spec fn dispatched_spec(c: ContextView, scope: u64, event: u64) -> ContextView {
    if c.dispatching.contains_key(event) && c.dispatching[event] == scope {
        ContextView { dispatching: c.dispatching.remove(event), ..c }
    } else {
        c
    }
}

/// The context after a scope has provided a service.
pub open spec fn provided_spec(c: ContextView, scope: u64, p: ProvidedView) -> ContextView {
    ContextView {
        services: put_service(c.services, p),
        ..c.with_scope(
            scope,
            ScopeView {
                provided: c.scopes[scope].provided.insert(p.key, p.instance),
                ..c.scopes[scope]
            },
        )
    }
}

/// Whether a hook has taken an event: none yet; one did, with a result; one did,
/// but its result was of another type than the one asked for.
pub enum Taken<R> {
    Open,
    With(R),
    Mismatch,
}

/// A run through the hooks of an event.
pub struct BailRun<R> {
    pub ids: Vec<u64>,
    pub at: usize,
    pub taken: Taken<R>,
}

impl<R> BailRun<R> {
    /// The hook to call next; none where one has taken the event, or all have
    /// been called.
    pub open spec fn next_spec(&self) -> Option<u64> {
        if self.taken is Open && self.at < self.ids@.len() {
            Some(self.ids@[self.at as int])
        } else {
            None
        }
    }

    pub fn next(&self) -> (r: Option<u64>)
        ensures
            r == self.next_spec(),
    {
        match self.taken {
            Taken::Open => if self.at < self.ids.len() {
                Some(self.ids[self.at])
            } else {
                None
            },
            _ => None,
        }
    }

    /// The run after the hook that was called has given something.
    pub open spec fn answered(self, taken: Taken<R>) -> BailRun<R> {
        BailRun { ids: self.ids, at: (self.at + 1) as usize, taken }
    }

    /// Takes note of what the hook that was called gave.
    pub fn answer(&mut self, taken: Taken<R>)
        requires
            old(self).next_spec() is Some,
        ensures
            *final(self) == old(self).answered(taken),
    {
        let n: usize = self.ids.len();
        assert(self.at < n);
        self.at = self.at + 1;
        self.taken = taken;
    }

    /// What the run gave.
    pub fn result(self) -> (r: Option<R>)
        ensures
            r == (match self.taken {
                Taken::With(x) => Some(x),
                _ => None,
            }),
    {
        match self.taken {
            Taken::With(x) => Some(x),
            _ => None,
        }
    }
}

// ---- lemmas ----

proof fn service_index_bounds(services: Seq<ProvidedView>, key: u64)
    ensures
        -1 <= service_index(services, key) < services.len(),
        service_index(services, key) >= 0 ==> services[service_index(services, key)].key == key
            && service_at(services, key) == Some(services[service_index(services, key)]),
        service_index(services, key) < 0 ==> service_at(services, key) is None,
        service_index(services, key) < 0 ==> forall|i: int|
            0 <= i < services.len() ==> (#[trigger] services[i]).key != key,
    decreases services.len(),
{
    if services.len() > 0 && services.last().key != key {
        service_index_bounds(services.drop_last(), key);
        assert forall|i: int|
            service_index(services, key) < 0 && 0 <= i < services.len() implies (
        #[trigger] services[i]).key != key by {
            if i < services.len() - 1 {
                assert(services.drop_last()[i] == services[i]);
            }
        }
    }
}

/// A service is found at the place where its key stands.
proof fn service_found(services: Seq<ProvidedView>, i: int)
    requires
        0 <= i < services.len(),
        forall|a: int, b: int|
            0 <= a < b < services.len() ==> (#[trigger] services[a]).key != (
            #[trigger] services[b]).key,
    ensures
        service_at(services, services[i].key) == Some(services[i]),
    decreases services.len(),
{
    if i < services.len() - 1 {
        assert(services[i].key != services[services.len() - 1].key);
        let s = services.drop_last();
        assert forall|a: int, b: int| 0 <= a < b < s.len() implies (#[trigger] s[a]).key != (
        #[trigger] s[b]).key by {
            assert(services[a].key != services[b].key);
        }
        service_found(s, i);
    }
}

/// A service that was found stands somewhere.
proof fn service_stands(services: Seq<ProvidedView>, key: u64)
    ensures
        service_at(services, key) is Some ==> exists|i: int|
            0 <= i < services.len() && (#[trigger] services[i]).key == key && Some(services[i])
                == service_at(services, key),
        service_at(services, key) is None ==> forall|i: int|
            0 <= i < services.len() ==> (#[trigger] services[i]).key != key,
{
    service_index_bounds(services, key);
}

/// After a service has been provided, its key gives it, and every other key gives
/// what it gave before; the keys stay distinct.
pub proof fn put_service_lookup(services: Seq<ProvidedView>, s: ProvidedView, key: u64)
    requires
        forall|i: int, j: int|
            0 <= i < j < services.len() ==> (#[trigger] services[i]).key != (
            #[trigger] services[j]).key,
    ensures
        service_at(put_service(services, s), key) == (if key == s.key {
            Some(s)
        } else {
            service_at(services, key)
        }),
        forall|i: int, j: int|
            0 <= i < j < put_service(services, s).len() ==> (#[trigger] put_service(
                services,
                s,
            )[i]).key != (#[trigger] put_service(services, s)[j]).key,
{
    service_index_bounds(services, s.key);
    let out = put_service(services, s);
    let i0 = service_index(services, s.key);
    assert forall|i: int, j: int| 0 <= i < j < out.len() implies (#[trigger] out[i]).key != (
    #[trigger] out[j]).key by {
        if i0 >= 0 {
            assert(services[i].key != services[j].key);
            assert(out[i].key == services[i].key);
            assert(out[j].key == services[j].key);
        } else if j < services.len() {
            assert(services[i].key != services[j].key);
        } else {
            assert(services[i].key != s.key);
        }
    }
    if i0 < 0 {
        assert(out.drop_last() =~= services);
    } else if key == s.key {
        service_found(out, i0);
    } else {
        service_stands(services, key);
        service_stands(out, key);
        if service_at(services, key) is Some {
            let k = choose|k: int|
                0 <= k < services.len() && (#[trigger] services[k]).key == key && Some(services[k])
                    == service_at(services, key);
            assert(out[k] == services[k]);
            service_found(out, k);
        } else if service_at(out, key) is Some {
            let k = choose|k: int|
                0 <= k < out.len() && (#[trigger] out[k]).key == key && Some(out[k]) == service_at(
                    out,
                    key,
                );
            assert(services[k].key == key);
        }
    }
}

proof fn reclaim_members(services: Seq<ProvidedView>, provided: Map<u64, u64>)
    ensures
        forall|i: int|
            0 <= i < reclaim(services, provided).len() ==> services.contains(
                #[trigger] reclaim(services, provided)[i],
            ) && !(provided.contains_key(reclaim(services, provided)[i].key) && provided[reclaim(
                services,
                provided,
            )[i].key] == reclaim(services, provided)[i].instance),
    decreases services.len(),
{
    if services.len() > 0 {
        let s = services.drop_last();
        reclaim_members(s, provided);
        let r = reclaim(s, provided);
        let out = reclaim(services, provided);
        assert forall|i: int| 0 <= i < out.len() implies services.contains(#[trigger] out[i])
            && !(provided.contains_key(out[i].key) && provided[out[i].key] == out[i].instance) by {
            if i < r.len() {
                assert(out[i] == r[i]);
                let k = choose|k: int| 0 <= k < s.len() && s[k] == r[i];
                assert(services[k] == r[i]);
            } else {
                assert(services[services.len() - 1] == out[i]);
            }
        }
    }
}

/// After a scope's services have been reclaimed, a key gives its service exactly
/// if that was not an instance of the scope; the keys stay distinct.
pub proof fn reclaim_lookup(services: Seq<ProvidedView>, provided: Map<u64, u64>, key: u64)
    requires
        forall|i: int, j: int|
            0 <= i < j < services.len() ==> (#[trigger] services[i]).key != (
            #[trigger] services[j]).key,
    ensures
        service_at(reclaim(services, provided), key) == (match service_at(services, key) {
            Some(s) => if provided.contains_key(key) && provided[key] == s.instance {
                None
            } else {
                Some(s)
            },
            None => None,
        }),
        forall|i: int, j: int|
            0 <= i < j < reclaim(services, provided).len() ==> (#[trigger] reclaim(
                services,
                provided,
            )[i]).key != (#[trigger] reclaim(services, provided)[j]).key,
    decreases services.len(),
{
    if services.len() > 0 {
        let s = services.drop_last();
        assert forall|a: int, b: int| 0 <= a < b < s.len() implies (#[trigger] s[a]).key != (
        #[trigger] s[b]).key by {
            assert(services[a].key != services[b].key);
        }
        reclaim_lookup(s, provided, key);
        let r = reclaim(s, provided);
        let out = reclaim(services, provided);
        reclaim_members(s, provided);
        assert forall|i: int, j: int| 0 <= i < j < out.len() implies (#[trigger] out[i]).key != (
        #[trigger] out[j]).key by {
            if j < r.len() {
                assert(out[i] == r[i] && out[j] == r[j]);
            } else {
                assert(out[i] == r[i]);
                let k = choose|k: int| 0 <= k < s.len() && s[k] == r[i];
                assert(services[k].key != services[services.len() - 1].key);
            }
        }
        if out.len() > r.len() {
            assert(out.drop_last() =~= r);
        }
        if services.last().key == key {
            service_stands(s, key);
            assert(service_at(s, key) is None) by {
                if service_at(s, key) is Some {
                    let k = choose|k: int|
                        0 <= k < s.len() && (#[trigger] s[k]).key == key && Some(s[k])
                            == service_at(s, key);
                    assert(services[k].key != services[services.len() - 1].key);
                }
            }
        }
    }
}

/// What undoing the last registration of a scope does.
proof fn undo_step(regs: Seq<RegistrationView>, scope: u64)
    ensures
        -1 <= last_of(regs, scope) < regs.len(),
        last_of(regs, scope) >= 0 ==> {
            let i = last_of(regs, scope);
            let rest = regs.remove(i);
            &&& regs[i].scope == scope
            &&& without_scope(rest, scope) == without_scope(regs, scope)
            &&& effects_of(regs, scope) == (if regs[i].kind == KindView::Effect {
                effects_of(rest, scope).push(regs[i].id)
            } else {
                effects_of(rest, scope)
            })
        },
        last_of(regs, scope) < 0 ==> without_scope(regs, scope) == regs && effects_of(regs, scope)
            == Seq::<u64>::empty(),
    decreases regs.len(),
{
    if regs.len() > 0 {
        let head = regs.drop_last();
        undo_step(head, scope);
        let i = last_of(regs, scope);
        if regs.last().scope == scope {
            assert(regs.remove(i) =~= head);
        } else if i >= 0 {
            let rest = regs.remove(i);
            assert(rest =~= head.remove(i).push(regs.last()));
            assert(rest.drop_last() =~= head.remove(i));
            assert(rest.last() == regs.last());
        } else {
            assert(without_scope(regs, scope) =~= regs);
        }
    } else {
        assert(without_scope(regs, scope) =~= regs);
    }
}

proof fn has_command_push(regs: Seq<RegistrationView>, r: RegistrationView)
    ensures
        forall|name: Seq<char>|
            #![trigger has_command(regs.push(r), name)]
            #![trigger has_command(regs, name)]
            has_command(regs.push(r), name) <==> has_command(regs, name) || r.kind
                == KindView::Command(name),
{
    assert forall|name: Seq<char>|
        #![trigger has_command(regs.push(r), name)]
        #![trigger has_command(regs, name)]
        has_command(regs.push(r), name) <==> has_command(regs, name) || r.kind
            == KindView::Command(name) by {
        let more = regs.push(r);
        if has_command(more, name) {
            let i = choose|i: int|
                0 <= i < more.len() && (#[trigger] more[i]).kind == KindView::Command(name);
            if i < regs.len() {
                assert(regs[i].kind == KindView::Command(name));
            }
        }
        if has_command(regs, name) {
            let i = choose|i: int|
                0 <= i < regs.len() && (#[trigger] regs[i]).kind == KindView::Command(name);
            assert(more[i].kind == KindView::Command(name));
        }
        if r.kind == KindView::Command(name) {
            assert(more[regs.len() as int].kind == KindView::Command(name));
        }
    }
}

/// A list that grew by one text, which it did not hold, holds it once.
proof fn inserted_once(before: Seq<Seq<char>>, after: Seq<Seq<char>>, s: Seq<char>)
    requires
        before.no_duplicates(),
        !before.contains(s),
        after.to_multiset() == before.to_multiset().insert(s),
    ensures
        after.no_duplicates(),
        forall|t: Seq<char>| after.contains(t) <==> before.contains(t) || t == s,
{
    broadcast use vstd::multiset::group_multiset_axioms;

    before.to_multiset_ensures();
    after.to_multiset_ensures();
    before.lemma_multiset_has_no_duplicates();
    assert forall|t: Seq<char>| after.contains(t) <==> before.contains(t) || t == s by {
        assert(after.contains(t) <==> after.to_multiset().count(t) > 0);
        assert(before.contains(t) <==> before.to_multiset().count(t) > 0);
    }
    assert forall|t: Seq<char>| #[trigger] after.to_multiset().contains(t) implies after.to_multiset().count(t)
        == 1 by {
        assert(before.to_multiset().count(s) == 0);
        if before.to_multiset().contains(t) {
            assert(before.to_multiset().count(t) == 1);
        }
    }
    after.lemma_multiset_has_no_duplicates_conv();
}

fn same_kind(a: &Kind, b: &Kind) -> (r: bool)
    ensures
        r == (a@ == b@),
{
    match (a, b) {
        (Kind::Listener(x), Kind::Listener(y)) => *x == *y,
        (Kind::Bailer(x), Kind::Bailer(y)) => *x == *y,
        (Kind::Command(x), Kind::Command(y)) => same(x.as_str(), y.as_str()),
        (Kind::Effect, Kind::Effect) => true,
        _ => false,
    }
}

// ---- the context ----

impl Context {
    /// A context with its root scope.
    pub fn new() -> (r: Context)
        ensures
            r@.wf(),
            r@ == (ContextView {
                next: 2,
                root: 1,
                registrations: Seq::empty(),
                services: Seq::empty(),
                scopes: Map::empty().insert(1, fresh_scope()),
                dispatching: Map::empty(),
            }),
    {
        let mut scopes: HashMap<u64, Scope> = HashMap::new();
        scopes.insert(1, Scope::fresh());
        let r = Context {
            next: 2,
            root: 1,
            registrations: Vec::new(),
            services: Vec::new(),
            scopes,
            dispatching: HashMap::new(),
        };
        assert(r@.registrations =~= Seq::empty());
        assert(r@.services =~= Seq::empty());
        assert(r@.scopes =~= Map::empty().insert(1, fresh_scope()));
        r
    }

    /// The root scope.
    pub fn id(&self) -> (r: u64)
        ensures
            r == self@.root,
    {
        self.root
    }

    /// Whether a scope belongs to this context.
    pub fn knows(&self, scope: u64) -> (r: bool)
        ensures
            r == self@.scopes.contains_key(scope),
    {
        self.scopes.contains_key(&scope)
    }

    /// How many numbers can still be given out.
    pub fn ids_left(&self) -> (r: u64)
        ensures
            r == u64::MAX - self@.next,
    {
        u64::MAX - self.next
    }

    /// A number that has not been given out yet.
    pub fn next_id(&mut self) -> (r: u64)
        requires
            old(self)@.wf(),
            old(self)@.next < u64::MAX,
        ensures
            r == old(self)@.next,
            final(self)@ == (ContextView { next: (old(self)@.next + 1) as u64, ..old(self)@ }),
            final(self)@.wf(),
    {
        let id: u64 = self.next;
        self.next = id + 1;
        id
    }

    /// A new scope: it shares everything that is registered, and has effects,
    /// options and services of its own.
    pub fn fork(&mut self) -> (r: u64)
        requires
            old(self)@.wf(),
            old(self)@.next < u64::MAX,
        ensures
            r == old(self)@.next,
            !old(self)@.scopes.contains_key(r),
            final(self)@ == (ContextView {
                next: (old(self)@.next + 1) as u64,
                scopes: old(self)@.scopes.insert(r, fresh_scope()),
                ..old(self)@
            }),
            final(self)@.wf(),
    {
        let id: u64 = self.next_id();
        let ghost before = self@.scopes;
        self.scopes.insert(id, Scope::fresh());
        assert(self@.scopes =~= before.insert(id, fresh_scope()));
        id
    }

    fn take_scope(&mut self, scope: u64) -> (r: Scope)
        requires
            old(self)@.scopes.contains_key(scope),
        ensures
            r@ == old(self)@.scopes[scope],
            final(self)@ == (ContextView {
                scopes: old(self)@.scopes.remove(scope),
                ..old(self)@
            }),
    {
        let ghost before = self@.scopes;
        let r = self.scopes.remove(&scope).unwrap();
        assert(self@.scopes =~= before.remove(scope));
        r
    }

    fn put_scope(&mut self, scope: u64, s: Scope)
        ensures
            final(self)@ == old(self)@.with_scope(scope, s@),
    {
        let ghost before = self@.scopes;
        self.scopes.insert(scope, s);
        assert(self@.scopes =~= before.insert(scope, s@));
    }

    // ---- options ----

    /// Gives a scope its options, as they were written; none where they are null.
    pub fn set_options(&mut self, scope: u64, options: Option<String>)
        requires
            old(self)@.wf(),
            old(self)@.scopes.contains_key(scope),
        ensures
            final(self)@ == old(self)@.with_scope(
                scope,
                ScopeView {
                    options: match options {
                        Some(s) => Some(s@),
                        None => None,
                    },
                    ..old(self)@.scopes[scope]
                },
            ),
            final(self)@.wf(),
    {
        let ghost before = self@;
        let mut s = self.take_scope(scope);
        s.options = options;
        self.put_scope(scope, s);
        assert(self@.scopes =~= before.scopes.insert(scope, s@));
    }

    /// The options of a scope, as they were written.
    pub fn options(&self, scope: u64) -> (r: Option<String>)
        requires
            self@.scopes.contains_key(scope),
        ensures
            crate::text::search::opt_text(r) == self@.scopes[scope].options,
    {
        match self.scopes.get(&scope) {
            Some(s) => match &s.options {
                Some(t) => Some(t.clone()),
                None => None,
            },
            None => None,
        }
    }

    // ---- registrations ----

    fn register(&mut self, scope: u64, kind: Kind) -> (r: u64)
        requires
            old(self)@.wf(),
            old(self)@.scopes.contains_key(scope),
            old(self)@.next < u64::MAX,
        ensures
            r == old(self)@.next,
            final(self)@ == old(self)@.registered(scope, kind@),
            final(self)@.wf(),
    {
        let ghost before = self@;
        let id: u64 = self.next;
        self.next = id + 1;
        self.registrations.push(Registration { id, scope, kind });
        assert(self@.registrations =~= before.registered(scope, kind@).registrations);
        id
    }

    fn ids(&self, kind: &Kind) -> (r: Vec<u64>)
        ensures
            r@ == ids_of(self@.registrations, kind@),
    {
        let mut out: Vec<u64> = Vec::new();
        let ghost regs = self@.registrations;
        let mut i: usize = 0;
        assert(regs.take(0).len() == 0);
        while i < self.registrations.len()
            invariant
                i <= self.registrations@.len(),
                regs == registration_views(self.registrations@),
                out@ =~= ids_of(regs.take(i as int), kind@),
            decreases self.registrations@.len() - i,
        {
            assert(regs.take(i as int + 1).drop_last() =~= regs.take(i as int));
            assert(regs[i as int] == self.registrations@[i as int]@);
            if same_kind(&self.registrations[i].kind, kind) {
                out.push(self.registrations[i].id);
            }
            i += 1;
        }
        assert(regs.take(i as int) =~= regs);
        out
    }

    // ---- effects ----

    /// Registers a plain effect: it is undone when the scope is disposed.
    pub fn effect(&mut self, scope: u64) -> (r: u64)
        requires
            old(self)@.wf(),
            old(self)@.scopes.contains_key(scope),
            old(self)@.next < u64::MAX,
        ensures
            r == old(self)@.next,
            final(self)@ == old(self)@.registered(scope, KindView::Effect),
            final(self)@.wf(),
    {
        self.register(scope, Kind::Effect)
    }

    pub fn disposed(&self, scope: u64) -> (r: bool)
        requires
            self@.scopes.contains_key(scope),
        ensures
            r == self@.scopes[scope].disposed,
    {
        match self.scopes.get(&scope) {
            Some(s) => s.disposed,
            None => false,
        }
    }

    /// Marks a scope as disposed; false where it was already.
    pub fn begin_dispose(&mut self, scope: u64) -> (r: bool)
        requires
            old(self)@.wf(),
            old(self)@.scopes.contains_key(scope),
        ensures
            r == !old(self)@.scopes[scope].disposed,
            final(self)@ == old(self)@.with_scope(
                scope,
                ScopeView { disposed: true, ..old(self)@.scopes[scope] },
            ),
            final(self)@.wf(),
    {
        let ghost before = self@;
        let mut s = self.take_scope(scope);
        let first = !s.disposed;
        s.disposed = true;
        self.put_scope(scope, s);
        assert(self@.scopes =~= before.scopes.insert(scope, s@));
        first
    }

    /// Undoes the last registration of a scope, and says which it was; none where
    /// nothing is left. A plain effect has to be run by the caller.
    pub fn undo_last(&mut self, scope: u64) -> (r: Option<Registration>)
        requires
            old(self)@.wf(),
        ensures
            ({
                let i = last_of(old(self)@.registrations, scope);
                match r {
                    Some(reg) => i >= 0 && reg@ == old(self)@.registrations[i] && final(self)@ == (
                    ContextView {
                        registrations: old(self)@.registrations.remove(i),
                        ..old(self)@
                    }),
                    None => i < 0 && final(self)@ == old(self)@,
                }
            }),
            final(self)@.wf(),
    {
        let ghost regs = self@.registrations;
        let mut i: usize = self.registrations.len();
        assert(regs.take(i as int) =~= regs);
        proof {
            undo_step(regs, scope);
        }
        while i > 0
            invariant
                i <= self.registrations@.len(),
                regs == registration_views(self.registrations@),
                regs == old(self)@.registrations,
                *self == *old(self),
                old(self)@.wf(),
                last_of(regs, scope) == last_of(regs.take(i as int), scope),
            decreases i,
        {
            assert(regs.take(i as int).drop_last() =~= regs.take(i as int - 1));
            assert(regs[i as int - 1] == self.registrations@[i as int - 1]@);
            if self.registrations[i - 1].scope == scope {
                let reg = self.registrations.remove(i - 1);
                assert(self@.registrations =~= regs.remove(i as int - 1));
                assert(self@.wf()) by {
                    let after = self@.registrations;
                    assert forall|a: int, b: int| 0 <= a < b < after.len() implies (
                    #[trigger] after[a]).id < (#[trigger] after[b]).id by {
                        let pa = if a < i - 1 {
                            a
                        } else {
                            a + 1
                        };
                        let pb = if b < i - 1 {
                            b
                        } else {
                            b + 1
                        };
                        assert(regs[pa].id < regs[pb].id);
                    }
                }
                return Some(reg);
            }
            i -= 1;
        }
        None
    }

    /// Takes back the services that a scope provided, where they are still in
    /// force.
    pub fn finish_dispose(&mut self, scope: u64)
        requires
            old(self)@.wf(),
            old(self)@.scopes.contains_key(scope),
        ensures
            final(self)@ == (ContextView {
                services: reclaim(old(self)@.services, old(self)@.scopes[scope].provided),
                ..old(self)@.with_scope(
                    scope,
                    ScopeView { provided: Map::empty(), ..old(self)@.scopes[scope] },
                )
            }),
            final(self)@.wf(),
    {
        let ghost before = self@;
        let mut s = self.take_scope(scope);
        let ghost provided = s.provided@;
        let ghost all = before.services;
        let mut kept: Vec<Provided> = Vec::new();
        let mut i: usize = 0;
        let n: usize = self.services.len();
        assert(all.take(0).len() == 0);
        while i < n
            invariant
                i <= n,
                n == self.services@.len(),
                all == provided_views(self.services@),
                provided == s.provided@,
                provided_views(kept@) =~= reclaim(all.take(i as int), provided),
            decreases n - i,
        {
            let p = &self.services[i];
            assert(all[i as int] == p@);
            assert(all.take(i as int + 1).drop_last() =~= all.take(i as int));
            let own = match s.provided.get(&p.key) {
                Some(instance) => *instance == p.instance,
                None => false,
            };
            if !own {
                kept.push(Provided { key: p.key, name: p.name, instance: p.instance });
            }
            i += 1;
        }
        assert(all.take(i as int) =~= all);
        s.provided = HashMap::new();
        self.services = kept;
        self.put_scope(scope, s);
        assert(self@.scopes =~= before.scopes.insert(scope, s@));
        proof {
            assert forall|a: int, b: int| 0 <= a < b < self@.services.len() implies (
            #[trigger] self@.services[a]).key != (#[trigger] self@.services[b]).key by {
                reclaim_lookup(all, provided, 0);
            }
        }
    }

    /// Disposes a scope: everything that it registered is undone, last first, and
    /// its services are taken back. What comes back are the plain effects, in the
    /// order in which they are to be run. A second call does nothing.
    pub fn dispose(&mut self, scope: u64) -> (r: Vec<u64>)
        requires
            old(self)@.wf(),
            old(self)@.scopes.contains_key(scope),
        ensures
            final(self)@ == disposed_spec(old(self)@, scope),
            r@ == (if old(self)@.scopes[scope].disposed {
                Seq::empty()
            } else {
                effects_of(old(self)@.registrations, scope).reverse()
            }),
            final(self)@.wf(),
    {
        let ghost before = self@;
        let mut out: Vec<u64> = Vec::new();
        if !self.begin_dispose(scope) {
            assert(self@.scopes =~= before.scopes);
            return out;
        }
        let ghost marked = self@;
        let ghost all = before.registrations;
        let mut more = true;
        while more
            invariant
                self@.wf(),
                self@ == (ContextView { registrations: self@.registrations, ..marked }),
                marked.scopes.contains_key(scope),
                without_scope(self@.registrations, scope) == without_scope(all, scope),
                out@ + effects_of(self@.registrations, scope).reverse() =~= effects_of(
                    all,
                    scope,
                ).reverse(),
                !more ==> last_of(self@.registrations, scope) < 0,
            decreases self@.registrations.len() + (if more {
                1int
            } else {
                0
            }),
        {
            let ghost now = self@.registrations;
            proof {
                undo_step(now, scope);
            }
            match self.undo_last(scope) {
                Some(reg) => {
                    if let Kind::Effect = reg.kind {
                        out.push(reg.id);
                    }
                },
                None => {
                    more = false;
                },
            }
        }
        proof {
            undo_step(self@.registrations, scope);
        }
        let ghost mid = self@;
        self.finish_dispose(scope);
        assert(self@.scopes =~= disposed_spec(before, scope).scopes);
        assert(self@ =~= disposed_spec(before, scope));
        out
    }

    // ---- events ----

    /// Registers a listener of an event.
    pub fn on<E: Event>(&mut self, scope: u64) -> (r: u64)
        requires
            old(self)@.wf(),
            old(self)@.scopes.contains_key(scope),
            old(self)@.next < u64::MAX,
        ensures
            r == old(self)@.next,
            final(self)@ == old(self)@.registered(scope, KindView::Listener(E::key_spec())),
            final(self)@.wf(),
    {
        self.register(scope, Kind::Listener(E::key()))
    }

    /// Registers a hook of an event.
    pub fn on_bail<E: Event>(&mut self, scope: u64) -> (r: u64)
        requires
            old(self)@.wf(),
            old(self)@.scopes.contains_key(scope),
            old(self)@.next < u64::MAX,
        ensures
            r == old(self)@.next,
            final(self)@ == old(self)@.registered(scope, KindView::Bailer(E::key_spec())),
            final(self)@.wf(),
    {
        self.register(scope, Kind::Bailer(E::key()))
    }

    fn begin_dispatch(&mut self, scope: u64, event: u64) -> (r: bool)
        requires
            old(self)@.wf(),
        ensures
            r == !old(self)@.dispatching.contains_key(event),
            final(self)@ == dispatching_spec(old(self)@, scope, event),
            final(self)@.wf(),
    {
        if self.dispatching.contains_key(&event) {
            return false;
        }
        self.dispatching.insert(event, scope);
        true
    }

    /// Begins to dispatch an event that a scope emits: its listeners, in the order
    /// in which they were registered. None where such an event is being dispatched
    /// already, whichever scope emitted it: an event that a listener emits in turn
    /// is skipped. The listeners stay registered. [`Context::dispatched`] ends the
    /// dispatch.
    pub fn emit<E: Event>(&mut self, scope: u64) -> (r: Option<Vec<u64>>)
        requires
            old(self)@.wf(),
            old(self)@.scopes.contains_key(scope),
        ensures
            match r {
                Some(ids) => !old(self)@.dispatching.contains_key(E::key_spec()) && ids@ == ids_of(
                    old(self)@.registrations,
                    KindView::Listener(E::key_spec()),
                ),
                None => old(self)@.dispatching.contains_key(E::key_spec()),
            },
            final(self)@ == dispatching_spec(old(self)@, scope, E::key_spec()),
            final(self)@.wf(),
    {
        let event: u64 = E::key();
        if !self.begin_dispatch(scope, event) {
            return None;
        }
        Some(self.ids(&Kind::Listener(event)))
    }

    /// Begins to run the hooks of an event that a scope emits, as
    /// [`Context::emit`] does with listeners.
    pub fn bail<E: Event, R>(&mut self, scope: u64) -> (r: Option<BailRun<R>>)
        requires
            old(self)@.wf(),
            old(self)@.scopes.contains_key(scope),
        ensures
            match r {
                Some(run) => !old(self)@.dispatching.contains_key(E::key_spec()) && run.ids@
                    == ids_of(old(self)@.registrations, KindView::Bailer(E::key_spec())) && run.at
                    == 0 && run.taken == Taken::<R>::Open,
                None => old(self)@.dispatching.contains_key(E::key_spec()),
            },
            final(self)@ == dispatching_spec(old(self)@, scope, E::key_spec()),
            final(self)@.wf(),
    {
        let event: u64 = E::key();
        if !self.begin_dispatch(scope, event) {
            return None;
        }
        Some(BailRun { ids: self.ids(&Kind::Bailer(event)), at: 0, taken: Taken::Open })
    }

    /// Ends the dispatch of an event that a scope emitted; where another scope
    /// emitted it, its dispatch goes on.
    pub fn dispatched<E: Event>(&mut self, scope: u64)
        requires
            old(self)@.wf(),
            old(self)@.scopes.contains_key(scope),
        ensures
            final(self)@ == dispatched_spec(old(self)@, scope, E::key_spec()),
            final(self)@.wf(),
    {
        let event: u64 = E::key();
        let own = match self.dispatching.get(&event) {
            Some(s) => *s == scope,
            None => false,
        };
        if own {
            self.dispatching.remove(&event);
        }
    }

    // ---- services ----

    /// Provides a service: any scope can inject it from now on, in place of one
    /// with the same key. It is taken back when the scope is disposed.
    pub fn provide<T: Service>(&mut self, scope: u64, instance: u64)
        requires
            old(self)@.wf(),
            old(self)@.scopes.contains_key(scope),
        ensures
            final(self)@ == provided_spec(
                old(self)@,
                scope,
                ProvidedView { key: T::key_spec(), name: T::title(), instance },
            ),
            final(self)@.wf(),
    {
        let ghost before = self@;
        let key: u64 = T::key();
        let p = Provided { key, name: T::service_name_static(), instance };
        let ghost pv = p@;
        let ghost all = self@.services;
        let n: usize = self.services.len();
        let mut i: usize = n;
        assert(all.take(n as int) =~= all);
        while i > 0 && self.services[i - 1].key != key
            invariant
                i <= n,
                n == self.services@.len(),
                all == provided_views(self.services@),
                service_index(all, key) == service_index(all.take(i as int), key),
            decreases i,
        {
            assert(all[i as int - 1] == self.services@[i as int - 1]@);
            assert(all.take(i as int).drop_last() =~= all.take(i as int - 1));
            i -= 1;
        }
        if i == 0 {
            self.services.push(p);
        } else {
            assert(all[i as int - 1] == self.services@[i as int - 1]@);
            assert(all.take(i as int).last() == all[i as int - 1]);
            self.services.set(i - 1, p);
        }
        assert(self@.services =~= put_service(all, pv));
        proof {
            put_service_lookup(all, pv, key);
        }
        let mut s = self.take_scope(scope);
        s.provided.insert(key, instance);
        self.put_scope(scope, s);
        assert(self@.scopes =~= before.scopes.insert(scope, s@));
        assert(self@ =~= provided_spec(before, scope, pv));
    }

    /// The instance of a service.
    pub fn inject<T: Service>(&self) -> (r: Option<u64>)
        ensures
            r == (match service_at(self@.services, T::key_spec()) {
                Some(s) => Some(s.instance),
                None => None,
            }),
    {
        let key: u64 = T::key();
        let ghost all = self@.services;
        let n: usize = self.services.len();
        let mut i: usize = n;
        assert(all.take(n as int) =~= all);
        while i > 0
            invariant
                i <= n,
                n == self.services@.len(),
                all == provided_views(self.services@),
                all == self@.services,
                key == T::key_spec(),
                service_at(all, key) == service_at(all.take(i as int), key),
            decreases i,
        {
            assert(all[i as int - 1] == self.services@[i as int - 1]@);
            assert(all.take(i as int).drop_last() =~= all.take(i as int - 1));
            if self.services[i - 1].key == key {
                return Some(self.services[i - 1].instance);
            }
            i -= 1;
        }
        None
    }

    pub fn has_service<T: Service>(&self) -> (r: bool)
        ensures
            r == (service_at(self@.services, T::key_spec()) is Some),
    {
        match self.inject::<T>() {
            Some(_) => true,
            None => false,
        }
    }

    /// The names of the services, in order.
    pub fn service_names(&self) -> (r: Vec<String>)
        ensures
            in_order(texts(r@)),
            texts(r@).to_multiset() == self@.services.map_values(
                |s: ProvidedView| s.name,
            ).to_multiset(),
    {
        let mut names: Vec<String> = Vec::new();
        let mut i: usize = 0;
        while i < self.services.len()
            invariant
                i <= self.services@.len(),
                names@.len() == i,
                forall|k: int| 0 <= k < i ==> (#[trigger] names@[k])@ == self.services@[k].name@,
            decreases self.services@.len() - i,
        {
            names.push(self.services[i].name.to_string());
            i += 1;
        }
        assert(texts(names@) =~= self@.services.map_values(|s: ProvidedView| s.name));
        sort(names)
    }

    // ---- commands ----

    /// Registers a handler of a command.
    pub fn on_command(&mut self, scope: u64, name: &str) -> (r: u64)
        requires
            old(self)@.wf(),
            old(self)@.scopes.contains_key(scope),
            old(self)@.next < u64::MAX,
        ensures
            r == old(self)@.next,
            final(self)@ == old(self)@.registered(scope, KindView::Command(name@)),
            final(self)@.wf(),
    {
        self.register(scope, Kind::Command(name.to_string()))
    }

    /// Who handles a command line. None where nobody does. The results of the
    /// handlers go to [`command_output`].
    pub fn run_command(&self, line: &str) -> (r: Option<CommandCall>)
        ensures
            ({
                let (name, args) = command_parts(line@);
                let ids = ids_of(self@.registrations, KindView::Command(name));
                match r {
                    Some(call) => ids.len() > 0 && call.handlers@ == ids && call.name@ == name
                        && call.args@ == args,
                    None => ids.len() == 0,
                }
            }),
    {
        let t = strip_leading(line, '/');
        let (name, args) = match split_once(t.as_str(), ' ') {
            Some((name, rest)) => (name, trim(rest.as_str())),
            None => (t, String::new()),
        };
        let handlers = self.ids(&Kind::Command(name.clone()));
        if handlers.len() == 0 {
            None
        } else {
            Some(CommandCall { handlers, name, args })
        }
    }

    /// The names of the commands that have a handler, in order.
    pub fn command_names(&self) -> (r: Vec<String>)
        ensures
            in_order(texts(r@)),
            texts(r@).no_duplicates(),
            forall|name: Seq<char>|
                texts(r@).contains(name) <==> has_command(self@.registrations, name),
    {
        let mut names: Vec<String> = Vec::new();
        let ghost regs = self@.registrations;
        let mut i: usize = 0;
        while i < self.registrations.len()
            invariant
                i <= self.registrations@.len(),
                regs == registration_views(self.registrations@),
                in_order(texts(names@)),
                texts(names@).no_duplicates(),
                forall|name: Seq<char>|
                    texts(names@).contains(name) <==> has_command(regs.take(i as int), name),
            decreases self.registrations@.len() - i,
        {
            let ghost done = regs.take(i as int);
            let ghost more = regs.take(i as int + 1);
            let ghost had = texts(names@);
            assert(more =~= done.push(regs[i as int]));
            assert(regs[i as int] == self.registrations@[i as int]@);
            proof {
                has_command_push(done, regs[i as int]);
            }
            if let Kind::Command(name) = &self.registrations[i].kind {
                if !holds(&names, name.as_str()) {
                    insert_in_order(&mut names, name.clone());
                    proof {
                        inserted_once(had, texts(names@), name@);
                    }
                }
            }
            i += 1;
        }
        assert(regs.take(i as int) =~= regs);
        names
    }
}

/// What the handlers of a command gave, line by line.
pub fn command_output(results: &Vec<String>) -> (r: String)
    ensures
        r@ == join_spec(texts(results@), "\n"@),
{
    join(results, "\n")
}

}  // verus!
