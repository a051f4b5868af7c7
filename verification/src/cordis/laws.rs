//! What holds of the kernel as a whole.

use crate::cordis::context::{
    dispatched_spec, dispatching_spec, disposed_spec, effects_of, ids_of, provided_spec,
    put_service_lookup, reclaim_lookup, service_at, without_scope, BailRun, ContextView, KindView,
    ProvidedView, RegistrationView, Taken,
};
use vstd::prelude::*;

verus! {

/// What stays when a scope is disposed: exactly what other scopes registered.
pub proof fn dispose_keeps_others(regs: Seq<RegistrationView>, scope: u64, r: RegistrationView)
    ensures
        without_scope(regs, scope).contains(r) <==> regs.contains(r) && r.scope != scope,
    decreases regs.len(),
{
    if regs.len() > 0 {
        let head = regs.drop_last();
        let last = regs.last();
        dispose_keeps_others(head, scope, r);
        let rest = without_scope(head, scope);
        let out = without_scope(regs, scope);
        if regs.contains(r) {
            let i = choose|i: int| 0 <= i < regs.len() && regs[i] == r;
            if i < head.len() {
                assert(head[i] == r);
            }
        }
        if head.contains(r) {
            let i = choose|i: int| 0 <= i < head.len() && head[i] == r;
            assert(regs[i] == r);
        }
        assert(regs[regs.len() - 1] == last);
        if last.scope != scope {
            assert(out[rest.len() as int] == last);
            if rest.contains(r) {
                let i = choose|i: int| 0 <= i < rest.len() && rest[i] == r;
                assert(out[i] == r);
            }
            if out.contains(r) {
                let i = choose|i: int| 0 <= i < out.len() && out[i] == r;
                if i < rest.len() {
                    assert(rest[i] == r);
                }
            }
        }
    }
}

/// The numbers of the registrations of a kind that other scopes than one made, in
/// the order in which they were made.
pub open spec fn ids_of_others(regs: Seq<RegistrationView>, scope: u64, kind: KindView) -> Seq<u64>
    decreases regs.len(),
{
    if regs.len() == 0 {
        Seq::empty()
    } else {
        let rest = ids_of_others(regs.drop_last(), scope, kind);
        if regs.last().kind == kind && regs.last().scope != scope {
            rest.push(regs.last().id)
        } else {
            rest
        }
    }
}

/// What stays when a scope is disposed keeps its order: of every kind the
/// handlers of the other scopes are left, and are called in the order in which
/// they were called before. Where the scope had none of a kind, all are left.
pub proof fn dispose_keeps_order(regs: Seq<RegistrationView>, scope: u64, kind: KindView)
    ensures
        ids_of(without_scope(regs, scope), kind) == ids_of_others(regs, scope, kind),
        (forall|i: int|
            0 <= i < regs.len() && (#[trigger] regs[i]).kind == kind ==> regs[i].scope != scope)
            ==> ids_of(without_scope(regs, scope), kind) == ids_of(regs, kind),
    decreases regs.len(),
{
    if regs.len() > 0 {
        let head = regs.drop_last();
        let last = regs.last();
        dispose_keeps_order(head, scope, kind);
        assert(regs[regs.len() - 1] == last);
        if forall|i: int|
            0 <= i < regs.len() && (#[trigger] regs[i]).kind == kind ==> regs[i].scope != scope {
            assert forall|i: int|
                0 <= i < head.len() && (#[trigger] head[i]).kind == kind implies head[i].scope
                != scope by {
                assert(regs[i] == head[i]);
            }
        }
        if last.scope != scope {
            assert(without_scope(regs, scope).drop_last() =~= without_scope(head, scope));
        }
    }
}

/// The number of a handler of a kind is that of a registration of that kind.
pub proof fn handlers_are_registered(regs: Seq<RegistrationView>, kind: KindView, id: u64)
    ensures
        ids_of(regs, kind).contains(id) <==> exists|i: int|
            0 <= i < regs.len() && (#[trigger] regs[i]).kind == kind && regs[i].id == id,
    decreases regs.len(),
{
    if regs.len() > 0 {
        let head = regs.drop_last();
        let last = regs.last();
        handlers_are_registered(head, kind, id);
        let rest = ids_of(head, kind);
        let out = ids_of(regs, kind);
        assert(regs[regs.len() - 1] == last);
        if rest.contains(id) {
            let i = choose|i: int|
                0 <= i < head.len() && (#[trigger] head[i]).kind == kind && head[i].id == id;
            assert(regs[i] == head[i]);
            let j = choose|j: int| 0 <= j < rest.len() && rest[j] == id;
            assert(out[j] == id);
        }
        if last.kind == kind {
            assert(out[rest.len() as int] == last.id);
        }
        if out.contains(id) && !rest.contains(id) {
            let j = choose|j: int| 0 <= j < out.len() && out[j] == id;
            if j < rest.len() {
                assert(rest[j] == id);
            }
        }
        if exists|i: int|
            0 <= i < regs.len() && (#[trigger] regs[i]).kind == kind && regs[i].id == id {
            let i = choose|i: int|
                0 <= i < regs.len() && (#[trigger] regs[i]).kind == kind && regs[i].id == id;
            if i < head.len() {
                assert(head[i].kind == kind && head[i].id == id);
            }
        }
    }
}

/// After a scope has been disposed, none of its handlers is ever called: whoever
/// is called for a kind was registered by another scope.
pub proof fn dispose_silences(c: ContextView, scope: u64, kind: KindView, id: u64)
    requires
        c.wf(),
        !c.scopes[scope].disposed,
        ids_of(disposed_spec(c, scope).registrations, kind).contains(id),
    ensures
        exists|i: int|
            0 <= i < c.registrations.len() && (#[trigger] c.registrations[i]).id == id
                && c.registrations[i].kind == kind && c.registrations[i].scope != scope,
{
    let after = disposed_spec(c, scope).registrations;
    handlers_are_registered(after, kind, id);
    let i = choose|i: int|
        0 <= i < after.len() && (#[trigger] after[i]).kind == kind && after[i].id == id;
    dispose_keeps_others(c.registrations, scope, after[i]);
    assert(after.contains(after[i]));
    let k = choose|k: int| 0 <= k < c.registrations.len() && c.registrations[k] == after[i];
    assert(c.registrations[k].id == id);
}

/// A command whose handlers all belong to a scope is unknown after that scope has
/// been disposed.
pub proof fn dispose_removes_commands(c: ContextView, scope: u64, kind: KindView)
    requires
        c.wf(),
        !c.scopes[scope].disposed,
        forall|i: int|
            0 <= i < c.registrations.len() && (#[trigger] c.registrations[i]).kind == kind
                ==> c.registrations[i].scope == scope,
    ensures
        ids_of(disposed_spec(c, scope).registrations, kind).len() == 0,
{
    let ids = ids_of(disposed_spec(c, scope).registrations, kind);
    if ids.len() > 0 {
        assert(ids.contains(ids[0]));
        dispose_silences(c, scope, kind, ids[0]);
    }
}

/// After a scope has been disposed, a service is there exactly if it was and is
/// not an instance that the scope provided.
pub proof fn dispose_reclaims(c: ContextView, scope: u64, key: u64)
    requires
        c.wf(),
        !c.scopes[scope].disposed,
    ensures
        service_at(disposed_spec(c, scope).services, key) == (match service_at(c.services, key) {
            Some(s) => if c.scopes[scope].provided.contains_key(key)
                && c.scopes[scope].provided[key] == s.instance {
                None
            } else {
                Some(s)
            },
            None => None,
        }),
{
    reclaim_lookup(c.services, c.scopes[scope].provided, key);
}

/// Disposing a scope twice is disposing it once.
pub proof fn dispose_is_idempotent(c: ContextView, scope: u64)
    requires
        c.scopes.contains_key(scope),
    ensures
        disposed_spec(disposed_spec(c, scope), scope) == disposed_spec(c, scope),
{
}

/// A service that a scope provides can be injected by every scope at once, and
/// no other service changes.
pub proof fn provided_is_visible(c: ContextView, scope: u64, p: ProvidedView, key: u64)
    requires
        c.wf(),
    ensures
        service_at(provided_spec(c, scope, p).services, key) == (if key == p.key {
            Some(p)
        } else {
            service_at(c.services, key)
        }),
{
    put_service_lookup(c.services, p, key);
}

/// What a scope provides is gone once it has been disposed, unless another has
/// been provided in its place.
pub proof fn provided_then_disposed(c: ContextView, scope: u64, p: ProvidedView)
    requires
        c.wf(),
        c.scopes.contains_key(scope),
        !c.scopes[scope].disposed,
    ensures
        service_at(disposed_spec(provided_spec(c, scope, p), scope).services, p.key) is None,
{
    let d = provided_spec(c, scope, p);
    put_service_lookup(c.services, p, p.key);
    reclaim_lookup(d.services, d.scopes[scope].provided, p.key);
}

/// Dispatching consumes nothing: when a dispatch has ended, the context is as it
/// was before.
pub proof fn dispatch_consumes_nothing(c: ContextView, scope: u64, event: u64)
    requires
        !c.dispatching.contains_key(event),
    ensures
        dispatched_spec(dispatching_spec(c, scope, event), scope, event) == c,
{
    assert(dispatched_spec(dispatching_spec(c, scope, event), scope, event).dispatching
        =~= c.dispatching);
}

/// After one scope has begun to dispatch an event, an emission of the same event
/// from that or any other scope is skipped and changes nothing, and only the scope
/// that began it can end the dispatch; once that has been done, the event can be
/// emitted again. Other events are not affected.
pub proof fn reentrant_emission_is_skipped(
    c: ContextView,
    scope: u64,
    from: u64,
    event: u64,
    other: u64,
)
    requires
        !c.dispatching.contains_key(event),
    ensures
        ({
            let d = dispatching_spec(c, scope, event);
            &&& d.dispatching.contains_key(event)
            &&& dispatching_spec(d, from, event) == d
            &&& from != scope ==> dispatched_spec(d, from, event) == d
            &&& !dispatched_spec(d, scope, event).dispatching.contains_key(event)
            &&& other != event ==> (d.dispatching.contains_key(other)
                <==> c.dispatching.contains_key(other))
        }),
{
}

/// Until it is ended, a dispatch outlasts whatever else is done: registering,
/// providing and disposing, and dispatches of other events, by whichever scope.
pub proof fn dispatch_lasts_until_its_end(
    c: ContextView,
    event: u64,
    scope: u64,
    kind: KindView,
    p: ProvidedView,
    other: u64,
)
    requires
        c.dispatching.contains_key(event),
        other != event,
    ensures
        c.registered(scope, kind).dispatching.contains_key(event),
        provided_spec(c, scope, p).dispatching.contains_key(event),
        disposed_spec(c, scope).dispatching.contains_key(event),
        dispatching_spec(c, scope, other).dispatching.contains_key(event),
        dispatched_spec(c, scope, other).dispatching.contains_key(event),
{
}

/// What a run comes to when hooks are called as long as there is a next one, and
/// `answers` is what each of them gives.
pub open spec fn ran<R>(run: BailRun<R>, answers: spec_fn(u64) -> Taken<R>) -> Taken<R>
    decreases run.ids.len() - run.at,
{
    match run.next_spec() {
        None => run.taken,
        Some(id) => ran(run.answered(answers(id)), answers),
    }
}

/// The first hook that takes an event ends the run, and what it gave is what the
/// run comes to; none is called after it. Where none takes the event, all of them
/// have been called.
pub proof fn bail_stops_at_first<R>(run: BailRun<R>, answers: spec_fn(u64) -> Taken<R>)
    requires
        run.taken is Open,
    ensures
        ran(run, answers) is Open ==> forall|i: int|
            run.at <= i < run.ids@.len() ==> answers(#[trigger] run.ids@[i]) is Open,
        !(ran(run, answers) is Open) ==> exists|i: int|
            run.at <= i < run.ids@.len() && answers(#[trigger] run.ids@[i]) == ran(run, answers)
                && forall|j: int| run.at <= j < i ==> answers(#[trigger] run.ids@[j]) is Open,
    decreases run.ids.len() - run.at,
{
    if run.at < run.ids@.len() {
        let taken = answers(run.ids@[run.at as int]);
        let next = run.answered(taken);
        assert(ran(run, answers) == ran(next, answers));
        if taken is Open {
            bail_stops_at_first(next, answers);
            if !(ran(run, answers) is Open) {
                let i = choose|i: int|
                    next.at <= i < next.ids@.len() && answers(#[trigger] next.ids@[i]) == ran(
                        next,
                        answers,
                    ) && forall|j: int| next.at <= j < i ==> answers(#[trigger] next.ids@[j]) is Open;
                assert(answers(run.ids@[i]) == ran(run, answers));
                assert forall|j: int| run.at <= j < i implies answers(#[trigger] run.ids@[j]) is Open by {
                    if j > run.at {
                        assert(answers(next.ids@[j]) is Open);
                    }
                }
            } else {
                assert forall|i: int| run.at <= i < run.ids@.len() implies answers(
                    #[trigger] run.ids@[i],
                ) is Open by {
                    if i > run.at {
                        assert(answers(next.ids@[i]) is Open);
                    }
                }
            }
        } else {
            assert(next.next_spec() is None);
            assert(answers(run.ids@[run.at as int]) == ran(run, answers));
        }
    }
}

/// What a scope registers last is undone first: the plain effects of a scope come
/// back from its disposal in the opposite order of their registration.
pub proof fn effects_are_undone_last_first(
    regs: Seq<RegistrationView>,
    scope: u64,
    first: u64,
    second: u64,
)
    ensures
        ({
            let more = regs.push(
                RegistrationView { id: first, scope, kind: KindView::Effect },
            ).push(RegistrationView { id: second, scope, kind: KindView::Effect });
            effects_of(more, scope).reverse() == seq![second, first] + effects_of(
                regs,
                scope,
            ).reverse()
        }),
{
    let one = regs.push(RegistrationView { id: first, scope, kind: KindView::Effect });
    let more = one.push(RegistrationView { id: second, scope, kind: KindView::Effect });
    assert(more.drop_last() =~= one);
    assert(one.drop_last() =~= regs);
    assert(effects_of(one, scope) == effects_of(regs, scope).push(first));
    assert(effects_of(more, scope) =~= effects_of(regs, scope).push(first).push(second));
    assert(effects_of(more, scope).reverse() =~= seq![second, first] + effects_of(
        regs,
        scope,
    ).reverse());
}

}  // verus!
