//! What holds of the kernel in use: what each call registers, finds, hands out and
//! takes back.

use crate::cordis::context::{
    command_output, command_parts, effects_of, has_command, ids_of, last_of, put_service_lookup,
    reclaim, reclaim_lookup, service_at, without_scope, BailRun, CommandCall, Context, ContextView,
    KindView, ProvidedView, Registration, RegistrationView, Taken,
};
use crate::cordis::event::Event;
use crate::cordis::loader::{
    active_index, plugin_index, put_plugin, put_plugins, status_names, titles, LoadError,
    LoadedView, Loader, PluginStatus,
};
use crate::cordis::plugin::Plugin;
use crate::cordis::service::Service;
use crate::text::laws::{joined_texts_stand, parted_once, standing_is_passed_on, what_is_between_stands};
use crate::text::order::text_le;
use crate::text::search::{contains_spec, occurs_at};
use crate::text::split::split_once_spec;
use crate::text::trim::{strip_leading_spec, trim_spec};
use crate::text::{join_spec, texts};
use vstd::prelude::*;
use vstd::string::*;

verus! {

// ---- registering ----

/// Whether one thing more is registered, after all that was registered before: under a
/// number of its own, by a scope, and of a kind; and nothing else has changed.
pub open spec fn registered_more(
    before: ContextView,
    after: ContextView,
    id: u64,
    scope: u64,
    kind: KindView,
) -> bool {
    let n = before.registrations.len() as int;
    &&& id == before.next
    &&& after.next == before.next + 1
    &&& after.registrations.len() == n + 1
    &&& forall|j: int| 0 <= j < n ==> #[trigger] after.registrations[j] == before.registrations[j]
    &&& after.registrations[n].id == id
    &&& after.registrations[n].scope == scope
    &&& after.registrations[n].kind == kind
    &&& after.services == before.services
    &&& after.scopes == before.scopes
    &&& after.dispatching == before.dispatching
    &&& after.root == before.root
}

/// A listener, a hook, a handler of a command and an effect are registered for what they
/// are asked to be, by the scope that asks, after all that is registered already.
pub proof fn things_are_registered<E: Event>(scope: u64, name: &str, r: u64)
    ensures
        forall|c: &mut Context|
            #[trigger] call_ensures(Context::on::<E>, (c, scope), r) && c@.next < u64::MAX
                ==> registered_more(c@, final(c)@, r, scope, KindView::Listener(E::key_spec())),
        forall|c: &mut Context|
            #[trigger] call_ensures(Context::on_bail::<E>, (c, scope), r) && c@.next < u64::MAX
                ==> registered_more(c@, final(c)@, r, scope, KindView::Bailer(E::key_spec())),
        forall|c: &mut Context|
            #[trigger] call_ensures(Context::on_command, (c, scope, name), r) && c@.next < u64::MAX
                ==> registered_more(c@, final(c)@, r, scope, KindView::Command(name@)),
        forall|c: &mut Context|
            #[trigger] call_ensures(Context::effect, (c, scope), r) && c@.next < u64::MAX
                ==> registered_more(c@, final(c)@, r, scope, KindView::Effect),
{
}

proof fn filter_goes_on<A>(a: Seq<A>, x: A, f: spec_fn(A) -> bool)
    ensures
        a.push(x).filter(f) == (if f(x) {
            a.filter(f).push(x)
        } else {
            a.filter(f)
        }),
{
    reveal(Seq::filter);
    assert(a.push(x).drop_last() =~= a);
}

/// The numbers of what is registered and answers to something, in the order in which it
/// was registered.
pub open spec fn numbers(regs: Seq<RegistrationView>, f: spec_fn(RegistrationView) -> bool) -> Seq<u64> {
    regs.filter(f).map_values(|x: RegistrationView| x.id)
}

proof fn numbers_go_on(regs: Seq<RegistrationView>, f: spec_fn(RegistrationView) -> bool)
    requires
        regs.len() > 0,
    ensures
        numbers(regs, f) == (if f(regs.last()) {
            numbers(regs.drop_last(), f).push(regs.last().id)
        } else {
            numbers(regs.drop_last(), f)
        }),
{
    let g = |x: RegistrationView| x.id;
    let d = regs.drop_last();
    assert(regs =~= d.push(regs.last()));
    filter_goes_on(d, regs.last(), f);
    if f(regs.last()) {
        assert(d.filter(f).push(regs.last()).map_values(g) =~= d.filter(f).map_values(g).push(
            regs.last().id,
        ));
    }
}

proof fn no_numbers(regs: Seq<RegistrationView>, f: spec_fn(RegistrationView) -> bool)
    requires
        regs.len() == 0,
    ensures
        numbers(regs, f) == Seq::<u64>::empty(),
{
    reveal(Seq::filter);
    assert(numbers(regs, f) =~= Seq::empty());
}

proof fn handlers_are_numbers(regs: Seq<RegistrationView>, kind: KindView)
    ensures
        ids_of(regs, kind) == numbers(regs, |x: RegistrationView| x.kind == kind),
    decreases regs.len(),
{
    let f = |x: RegistrationView| x.kind == kind;
    if regs.len() > 0 {
        handlers_are_numbers(regs.drop_last(), kind);
        numbers_go_on(regs, f);
    } else {
        no_numbers(regs, f);
    }
}

proof fn effects_are_numbers(regs: Seq<RegistrationView>, scope: u64)
    ensures
        effects_of(regs, scope) == numbers(
            regs,
            |x: RegistrationView| x.scope == scope && x.kind == KindView::Effect,
        ),
    decreases regs.len(),
{
    let f = |x: RegistrationView| x.scope == scope && x.kind == KindView::Effect;
    if regs.len() > 0 {
        effects_are_numbers(regs.drop_last(), scope);
        numbers_go_on(regs, f);
    } else {
        no_numbers(regs, f);
    }
}

proof fn others_are_filtered(regs: Seq<RegistrationView>, scope: u64)
    ensures
        without_scope(regs, scope) == regs.filter(|x: RegistrationView| x.scope != scope),
    decreases regs.len(),
{
    let f = |x: RegistrationView| x.scope != scope;
    if regs.len() > 0 {
        others_are_filtered(regs.drop_last(), scope);
        assert(regs =~= regs.drop_last().push(regs.last()));
        filter_goes_on(regs.drop_last(), regs.last(), f);
    } else {
        reveal(Seq::filter);
        assert(regs.filter(f) =~= Seq::empty());
    }
}

// ---- events ----

/// An event goes to all its listeners, in the order in which they were registered, and
/// to nobody else; so it does to its hooks. While it is being dispatched, it goes to
/// nobody. All stay registered.
pub proof fn events_reach_all_their_listeners<E: Event, R>(scope: u64, r: Option<Vec<u64>>, b: Option<BailRun<R>>)
    ensures
        forall|c: &mut Context|
            #[trigger] call_ensures(Context::emit::<E>, (c, scope), r) ==> {
                &&& r is Some <==> !c@.dispatching.contains_key(E::key_spec())
                &&& r is Some ==> r->0@ == numbers(
                    c@.registrations,
                    |x: RegistrationView| x.kind == KindView::Listener(E::key_spec()),
                ) && final(c)@.dispatching == c@.dispatching.insert(E::key_spec(), scope)
                &&& final(c)@.registrations == c@.registrations
                &&& final(c)@.services == c@.services
            },
        forall|c: &mut Context|
            #[trigger] call_ensures(Context::bail::<E, R>, (c, scope), b) ==> {
                &&& b is Some <==> !c@.dispatching.contains_key(E::key_spec())
                &&& b is Some ==> b->0.ids@ == numbers(
                    c@.registrations,
                    |x: RegistrationView| x.kind == KindView::Bailer(E::key_spec()),
                ) && b->0.at == 0 && b->0.taken is Open
                &&& final(c)@.registrations == c@.registrations
            },
        forall|c: &mut Context|
            #[trigger] call_ensures(Context::dispatched::<E>, (c, scope), ()) ==> {
                &&& c@.dispatching.contains_key(E::key_spec()) && c@.dispatching[E::key_spec()]
                    == scope ==> final(c)@.dispatching == c@.dispatching.remove(E::key_spec())
                &&& !(c@.dispatching.contains_key(E::key_spec()) && c@.dispatching[E::key_spec()]
                    == scope) ==> final(c)@ == c@
                &&& final(c)@.registrations == c@.registrations
            },
{
    assert forall|c: &mut Context| #[trigger] call_ensures(Context::emit::<E>, (c, scope), r) implies {
        &&& r is Some <==> !c@.dispatching.contains_key(E::key_spec())
        &&& r is Some ==> r->0@ == numbers(
            c@.registrations,
            |x: RegistrationView| x.kind == KindView::Listener(E::key_spec()),
        ) && final(c)@.dispatching == c@.dispatching.insert(E::key_spec(), scope)
        &&& final(c)@.registrations == c@.registrations
        &&& final(c)@.services == c@.services
    } by {
        handlers_are_numbers(c@.registrations, KindView::Listener(E::key_spec()));
    }
    assert forall|c: &mut Context| #[trigger]
        call_ensures(Context::bail::<E, R>, (c, scope), b) implies {
        &&& b is Some <==> !c@.dispatching.contains_key(E::key_spec())
        &&& b is Some ==> b->0.ids@ == numbers(
            c@.registrations,
            |x: RegistrationView| x.kind == KindView::Bailer(E::key_spec()),
        ) && b->0.at == 0 && b->0.taken is Open
        &&& final(c)@.registrations == c@.registrations
    } by {
        handlers_are_numbers(c@.registrations, KindView::Bailer(E::key_spec()));
    }
}

/// The hooks of an event are called one after the other, until one has taken it; what
/// that one gave is what comes of it.
pub proof fn hooks_are_called_in_turn<R>(run: BailRun<R>, n: Option<u64>, taken: Taken<R>, r: Option<R>)
    requires
        call_ensures(BailRun::<R>::next, (&run,), n),
        call_ensures(BailRun::<R>::result, (run,), r),
    ensures
        run.taken is Open && run.at < run.ids@.len() ==> n == Some(run.ids@[run.at as int]),
        !(run.taken is Open) || run.at >= run.ids@.len() ==> n is None,
        run.taken is With ==> r == Some(run.taken->With_0),
        !(run.taken is With) ==> r is None,
        forall|b: &mut BailRun<R>|
            #[trigger] call_ensures(BailRun::<R>::answer, (b, taken), ()) && b.at < usize::MAX ==> {
                &&& final(b).ids == b.ids
                &&& final(b).at == b.at + 1
                &&& final(b).taken == taken
            },
{
}

// ---- commands ----

proof fn names_before_blanks(name: Seq<char>, rest: Seq<char>)
    requires
        name.len() > 0,
        name[0] != '/',
        !name.contains(' '),
    ensures
        command_parts(seq!['/'] + name) == (name, Seq::<char>::empty()),
        command_parts(seq!['/'] + name + seq![' '] + rest) == (name, trim_spec(rest)),
        command_parts(name) == (name, Seq::<char>::empty()),
        command_parts(name + seq![' '] + rest) == (name, trim_spec(rest)),
{
    reveal_with_fuel(strip_leading_spec, 3);
    let a = seq!['/'] + name;
    assert(a.drop_first() =~= name);
    parted_once(name, ' ');
    if let Some((x, y)) = split_once_spec(name, ' ') {
        assert(name[x.len() as int] == ' ');
    }
    let s = name + seq![' '] + rest;
    let b = seq!['/'] + name + seq![' '] + rest;
    assert(b.drop_first() =~= s);
    assert(s[0] == name[0]);
    parted_once(s, ' ');
    assert(s[name.len() as int] == ' ');
    assert(s.contains(' '));
    let (x, y) = split_once_spec(s, ' ')->0;
    if x.len() < name.len() {
        assert(s[x.len() as int] == ' ');
        assert(name[x.len() as int] == ' ');
    } else if x.len() > name.len() {
        assert(x[name.len() as int] == s[name.len() as int]);
    }
    assert(x =~= s.take(name.len() as int));
    assert(name =~= s.take(name.len() as int));
    assert(y =~= s.skip(name.len() as int + 1));
    assert(rest =~= s.skip(name.len() as int + 1));
}

/// A command line goes to all handlers of its command, in the order in which they were
/// registered, with everything that follows the name; with or without a slash before
/// it. A command without a handler goes to nobody.
pub proof fn commands_reach_all_their_handlers(
    c: Context,
    name: Seq<char>,
    rest: Seq<char>,
    line: &str,
    r: Option<CommandCall>,
)
    requires
        call_ensures(Context::run_command, (&c, line), r),
        name.len() > 0,
        name[0] != '/',
        !name.contains(' '),
        line@ == seq!['/'] + name || line@ == name || line@ == seq!['/'] + name + seq![' '] + rest
            || line@ == name + seq![' '] + rest,
    ensures
        ({
            let all = numbers(
                c@.registrations,
                |x: RegistrationView| x.kind == KindView::Command(name),
            );
            &&& r is Some <==> all.len() > 0
            &&& r is Some ==> r->0.handlers@ == all && r->0.name@ == name
            &&& r is Some && (line@ == seq!['/'] + name + seq![' '] + rest || line@ == name
                + seq![' '] + rest) ==> r->0.args@ == trim_spec(rest)
            &&& r is Some && (line@ == seq!['/'] + name || line@ == name) ==> r->0.args@.len() == 0
        }),
{
    names_before_blanks(name, rest);
    handlers_are_numbers(c@.registrations, KindView::Command(name));
}

/// What a handler of a command is registered for, it is called for: it is the last of
/// those that a line with that command reaches.
pub proof fn a_registered_command_is_reached(scope: u64, name: &str, line: &str, id: u64, r: Option<CommandCall>)
    requires
        name@.len() > 0,
        name@[0] != '/',
        !name@.contains(' '),
        line@ == name@,
    ensures
        forall|c: &mut Context|
            #[trigger] call_ensures(Context::on_command, (c, scope, name), id) && call_ensures(
                Context::run_command,
                (&*final(c), line),
                r,
            ) ==> r is Some && r->0.handlers@.len() > 0 && r->0.handlers@.last() == id,
{
    assert forall|c: &mut Context|
        #[trigger] call_ensures(Context::on_command, (c, scope, name), id) && call_ensures(
            Context::run_command,
            (&*final(c), line),
            r,
        ) implies r is Some && r->0.handlers@.len() > 0 && r->0.handlers@.last() == id by {
        names_before_blanks(name@, Seq::empty());
        let regs = final(c)@.registrations;
        assert(regs.last().kind == KindView::Command(name@));
        assert(ids_of(regs, KindView::Command(name@)).last() == id);
    }
}

/// The names of the commands are those that have a handler, each once, in order.
pub proof fn every_command_is_listed(c: Context, r: Vec<String>, i: int, j: int)
    requires
        call_ensures(Context::command_names, (&c,), r),
    ensures
        0 <= i < c@.registrations.len() && c@.registrations[i].kind is Command ==> texts(r@).contains(
            c@.registrations[i].kind->Command_0,
        ),
        0 <= j < r@.len() ==> exists|k: int|
            0 <= k < c@.registrations.len() && (#[trigger] c@.registrations[k]).kind
                == KindView::Command(r@[j]@),
        forall|a: int, b: int| 0 <= a < b < r@.len() ==> (#[trigger] r@[a])@ != (#[trigger] r@[b])@,
        forall|a: int, b: int|
            0 <= a <= b < r@.len() ==> text_le((#[trigger] r@[a])@, (#[trigger] r@[b])@),
{
    let t = texts(r@);
    if 0 <= i < c@.registrations.len() && c@.registrations[i].kind is Command {
        let name = c@.registrations[i].kind->Command_0;
        assert(c@.registrations[i].kind == KindView::Command(name));
        assert(has_command(c@.registrations, name));
    }
    if 0 <= j < r@.len() {
        assert(t[j] == r@[j]@);
        assert(t.contains(t[j]));
        assert(has_command(c@.registrations, r@[j]@));
    }
    assert forall|a: int, b: int| 0 <= a < b < r@.len() implies (#[trigger] r@[a])@ != (
    #[trigger] r@[b])@ by {
        assert(t[a] == r@[a]@ && t[b] == r@[b]@);
    }
    assert forall|a: int, b: int| 0 <= a <= b < r@.len() implies text_le(
        (#[trigger] r@[a])@,
        (#[trigger] r@[b])@,
    ) by {
        assert(t[a] == r@[a]@ && t[b] == r@[b]@);
        assert(text_le(t[a], t[b]));
    }
}

/// What the handlers of a command gave is handed on whole, each after the one before.
pub proof fn every_output_is_handed_on(results: Vec<String>, r: String, i: int)
    requires
        call_ensures(command_output, (&results,), r),
    ensures
        0 <= i < results@.len() ==> contains_spec(r@, results@[i]@),
        results@.len() == 1 ==> r@ == results@[0]@,
        results@.len() == 2 ==> r@ == results@[0]@ + "\n"@ + results@[1]@,
        results@.len() == 0 ==> r@.len() == 0,
{
    let v = texts(results@);
    if 0 <= i < results@.len() {
        assert(v[i] == results@[i]@);
        let at = joined_texts_stand(v, "\n"@, i);
        assert(occurs_at(r@, v[i], at));
    }
    if results@.len() == 1 {
        assert(v[0] == results@[0]@);
    }
    if results@.len() == 2 {
        let d = v.drop_last();
        assert(d.len() == 1);
        assert(d[0] == results@[0]@);
        assert(v.last() == results@[1]@);
        assert(join_spec(d, "\n"@) == d[0]);
    }
}

// ---- services ----

/// A service that is provided is found by its key from then on, in every scope, and
/// every other service is what it was; nothing that is registered changes.
pub proof fn services_are_found<T: Service, U: Service>(
    scope: u64,
    instance: u64,
    r: Option<u64>,
    h: bool,
    before: Option<u64>,
    after: Option<u64>,
)
    ensures
        forall|c: &mut Context|
            #[trigger] call_ensures(Context::provide::<T>, (c, scope, instance), ()) && c@.wf() ==> {
                &&& call_ensures(Context::inject::<T>, (&*final(c),), r) ==> r == Some(instance)
                &&& call_ensures(Context::has_service::<T>, (&*final(c),), h) ==> h
                &&& U::key_spec() != T::key_spec() && call_ensures(
                    Context::inject::<U>,
                    (&*c,),
                    before,
                ) && call_ensures(Context::inject::<U>, (&*final(c),), after) ==> before == after
                &&& final(c)@.registrations == c@.registrations
                &&& final(c)@.dispatching == c@.dispatching
                &&& final(c)@.next == c@.next
                &&& c@.scopes.contains_key(scope) ==> final(c)@.scopes[scope].provided.contains_key(
                    T::key_spec(),
                ) && final(c)@.scopes[scope].provided[T::key_spec()] == instance
            },
{
    assert forall|c: &mut Context|
        #[trigger] call_ensures(Context::provide::<T>, (c, scope, instance), ()) && c@.wf() implies {
        &&& call_ensures(Context::inject::<T>, (&*final(c),), r) ==> r == Some(instance)
        &&& call_ensures(Context::has_service::<T>, (&*final(c),), h) ==> h
        &&& U::key_spec() != T::key_spec() && call_ensures(Context::inject::<U>, (&*c,), before)
            && call_ensures(Context::inject::<U>, (&*final(c),), after) ==> before == after
        &&& final(c)@.registrations == c@.registrations
        &&& final(c)@.dispatching == c@.dispatching
        &&& final(c)@.next == c@.next
        &&& c@.scopes.contains_key(scope) ==> final(c)@.scopes[scope].provided.contains_key(
            T::key_spec(),
        ) && final(c)@.scopes[scope].provided[T::key_spec()] == instance
    } by {
        let p = ProvidedView { key: T::key_spec(), name: T::title(), instance };
        put_service_lookup(c@.services, p, T::key_spec());
        put_service_lookup(c@.services, p, U::key_spec());
    }
}

/// The names of the services are listed, one for each, in order.
pub proof fn every_service_is_listed(c: Context, r: Vec<String>, i: int)
    requires
        call_ensures(Context::service_names, (&c,), r),
    ensures
        r@.len() == c@.services.len(),
        0 <= i < c@.services.len() ==> texts(r@).contains(c@.services[i].name),
        forall|a: int, b: int|
            0 <= a <= b < r@.len() ==> text_le((#[trigger] r@[a])@, (#[trigger] r@[b])@),
{
    let t = texts(r@);
    let v = c@.services.map_values(|s: ProvidedView| s.name);
    t.to_multiset_ensures();
    v.to_multiset_ensures();
    assert(t.len() == r@.len());
    assert(v.len() == c@.services.len());
    if 0 <= i < c@.services.len() {
        assert(v[i] == c@.services[i].name);
        assert(v.contains(v[i]));
        assert(t.to_multiset().count(v[i]) > 0);
    }
    assert forall|a: int, b: int| 0 <= a <= b < r@.len() implies text_le(
        (#[trigger] r@[a])@,
        (#[trigger] r@[b])@,
    ) by {
        assert(t[a] == r@[a]@ && t[b] == r@[b]@);
        assert(text_le(t[a], t[b]));
    }
}

// ---- scopes ----

/// A context begins with its root scope alone; a scope that is added is a new one, and
/// nothing else changes. A number that is given out is the next one.
pub proof fn scopes_are_added(c: Context, root: u64, scope: u64, s: u64, b: bool, n: u64)
    requires
        call_ensures(Context::new, (), c),
        call_ensures(Context::id, (&c,), root),
    ensures
        c@.registrations.len() == 0,
        c@.services.len() == 0,
        c@.scopes.contains_key(root),
        s != root ==> !c@.scopes.contains_key(s),
        call_ensures(Context::knows, (&c, s), b) ==> (b <==> s == root),
        forall|d: &mut Context|
            #[trigger] call_ensures(Context::fork, (d,), scope) && d@.wf() && d@.next < u64::MAX ==> {
                &&& !d@.scopes.contains_key(scope)
                &&& final(d)@.scopes.contains_key(scope)
                &&& !final(d)@.scopes[scope].disposed
                &&& final(d)@.scopes[scope].options is None
                &&& s != scope ==> (final(d)@.scopes.contains_key(s) <==> d@.scopes.contains_key(s))
                    && final(d)@.scopes[s] == d@.scopes[s]
                &&& final(d)@.registrations == d@.registrations
                &&& final(d)@.services == d@.services
            },
        forall|d: &mut Context|
            #[trigger] call_ensures(Context::next_id, (d,), n) && d@.next < u64::MAX ==> n == d@.next
                && final(d)@.next == n + 1 && final(d)@.registrations == d@.registrations && final(d)@.services == d@.services && final(d)@.scopes == d@.scopes,
        call_ensures(Context::ids_left, (&c,), n) ==> n == u64::MAX - c@.next,
{
    assert forall|d: &mut Context|
        #[trigger] call_ensures(Context::fork, (d,), scope) && d@.wf() && d@.next < u64::MAX implies {
        &&& !d@.scopes.contains_key(scope)
        &&& final(d)@.scopes.contains_key(scope)
        &&& !final(d)@.scopes[scope].disposed
        &&& final(d)@.scopes[scope].options is None
        &&& s != scope ==> (final(d)@.scopes.contains_key(s) <==> d@.scopes.contains_key(s)) && final(d)@.scopes[s] == d@.scopes[s]
        &&& final(d)@.registrations == d@.registrations
        &&& final(d)@.services == d@.services
    } by {
    }
}

/// The options of a scope are those that it was given last.
pub proof fn options_are_kept(scope: u64, options: Option<String>, r: Option<String>)
    ensures
        forall|c: &mut Context|
            #[trigger] call_ensures(Context::set_options, (c, scope, options), ()) ==> {
                &&& call_ensures(Context::options, (&*final(c), scope), r) ==> (r is Some
                    <==> options is Some) && (r is Some ==> r->0@ == options->0@)
                &&& final(c)@.registrations == c@.registrations
                &&& final(c)@.services == c@.services
            },
{
}

proof fn kept_services_are_filtered(services: Seq<ProvidedView>, provided: Map<u64, u64>)
    ensures
        reclaim(services, provided) == services.filter(
            |p: ProvidedView| !(provided.contains_key(p.key) && provided[p.key] == p.instance),
        ),
    decreases services.len(),
{
    let f = |p: ProvidedView| !(provided.contains_key(p.key) && provided[p.key] == p.instance);
    if services.len() > 0 {
        kept_services_are_filtered(services.drop_last(), provided);
        assert(services =~= services.drop_last().push(services.last()));
        filter_goes_on(services.drop_last(), services.last(), f);
    } else {
        reveal(Seq::filter);
        assert(services.filter(f) =~= Seq::empty());
    }
}

/// A scope that is disposed takes back everything that it registered and every service
/// that it provides, and nothing of any other scope; its effects are handed out, the
/// last one first. It stays disposed, and disposing it again does nothing.
pub proof fn a_scope_takes_back_its_own(scope: u64, r: Vec<u64>, b: bool, s: u64)
    ensures
        forall|c: &mut Context|
            #[trigger] call_ensures(Context::dispose, (c, scope), r) && !c@.scopes[scope].disposed ==> {
                &&& final(c)@.registrations == c@.registrations.filter(
                    |x: RegistrationView| x.scope != scope,
                )
                &&& final(c)@.services == c@.services.filter(
                    |p: ProvidedView|
                        !(c@.scopes[scope].provided.contains_key(p.key)
                            && c@.scopes[scope].provided[p.key] == p.instance),
                )
                &&& r@ == numbers(
                    c@.registrations,
                    |x: RegistrationView| x.scope == scope && x.kind == KindView::Effect,
                ).reverse()
                &&& final(c)@.scopes.contains_key(scope)
                &&& final(c)@.scopes[scope].disposed
                &&& s != scope ==> final(c)@.scopes[s] == c@.scopes[s]
                &&& call_ensures(Context::disposed, (&*final(c), scope), b) ==> b
            },
        forall|c: &mut Context|
            #[trigger] call_ensures(Context::dispose, (c, scope), r) && c@.scopes[scope].disposed
                ==> r@.len() == 0 && final(c)@ == c@,
{
    assert forall|c: &mut Context|
        #[trigger] call_ensures(Context::dispose, (c, scope), r) && !c@.scopes[scope].disposed implies {
        &&& final(c)@.registrations == c@.registrations.filter(
            |x: RegistrationView| x.scope != scope,
        )
        &&& final(c)@.services == c@.services.filter(
            |p: ProvidedView|
                !(c@.scopes[scope].provided.contains_key(p.key) && c@.scopes[scope].provided[p.key]
                    == p.instance),
        )
        &&& r@ == numbers(
            c@.registrations,
            |x: RegistrationView| x.scope == scope && x.kind == KindView::Effect,
        ).reverse()
        &&& final(c)@.scopes.contains_key(scope)
        &&& final(c)@.scopes[scope].disposed
        &&& s != scope ==> final(c)@.scopes[s] == c@.scopes[s]
        &&& call_ensures(Context::disposed, (&*final(c), scope), b) ==> b
    } by {
        others_are_filtered(c@.registrations, scope);
        kept_services_are_filtered(c@.services, c@.scopes[scope].provided);
        effects_are_numbers(c@.registrations, scope);
    }
}

proof fn last_of_is_last(regs: Seq<RegistrationView>, scope: u64)
    ensures
        -1 <= last_of(regs, scope) < regs.len(),
        last_of(regs, scope) >= 0 ==> regs[last_of(regs, scope)].scope == scope,
        forall|k: int| last_of(regs, scope) < k < regs.len() ==> (#[trigger] regs[k]).scope != scope,
    decreases regs.len(),
{
    if regs.len() > 0 && regs.last().scope != scope {
        let d = regs.drop_last();
        last_of_is_last(d, scope);
        assert forall|k: int| last_of(regs, scope) < k < regs.len() implies (
        #[trigger] regs[k]).scope != scope by {
            if k < d.len() {
                assert(d[k] == regs[k]);
            }
        }
    }
}

/// What a scope registered last is undone first, and it alone; nothing is undone where
/// nothing is left.
pub proof fn the_last_is_undone_first(scope: u64, r: Option<Registration>, i: int, j: int)
    ensures
        forall|c: &mut Context|
            #[trigger] call_ensures(Context::undo_last, (c, scope), r) ==> {
                &&& r is None <==> forall|k: int|
                    0 <= k < c@.registrations.len() ==> (#[trigger] c@.registrations[k]).scope
                        != scope
                &&& r is None ==> final(c)@ == c@
                &&& 0 <= i < c@.registrations.len() && c@.registrations[i].scope == scope && (
                forall|k: int|
                    i < k < c@.registrations.len() ==> (#[trigger] c@.registrations[k]).scope
                        != scope) ==> {
                    &&& r is Some && r->0@ == c@.registrations[i]
                    &&& final(c)@.registrations.len() == c@.registrations.len() - 1
                    &&& 0 <= j < i ==> final(c)@.registrations[j] == c@.registrations[j]
                    &&& i < j < c@.registrations.len() ==> final(c)@.registrations[j - 1]
                        == c@.registrations[j]
                    &&& final(c)@.services == c@.services
                }
            },
{
    assert forall|c: &mut Context| #[trigger] call_ensures(Context::undo_last, (c, scope), r) implies {
        &&& r is None <==> forall|k: int|
            0 <= k < c@.registrations.len() ==> (#[trigger] c@.registrations[k]).scope != scope
        &&& r is None ==> final(c)@ == c@
        &&& 0 <= i < c@.registrations.len() && c@.registrations[i].scope == scope && (forall|k: int|
            i < k < c@.registrations.len() ==> (#[trigger] c@.registrations[k]).scope != scope) ==> {
            &&& r is Some && r->0@ == c@.registrations[i]
            &&& final(c)@.registrations.len() == c@.registrations.len() - 1
            &&& 0 <= j < i ==> final(c)@.registrations[j] == c@.registrations[j]
            &&& i < j < c@.registrations.len() ==> final(c)@.registrations[j - 1]
                == c@.registrations[j]
            &&& final(c)@.services == c@.services
        }
    } by {
        let regs = c@.registrations;
        let l = last_of(regs, scope);
        last_of_is_last(regs, scope);
        if l >= 0 {
            assert(regs[l].scope == scope);
        }
    }
}

/// The two ends of a disposal: the scope is marked, once, and the services that it
/// provides are taken back.
pub proof fn a_disposal_begins_and_ends(scope: u64, r: bool, key: u64)
    ensures
        forall|c: &mut Context|
            #[trigger] call_ensures(Context::begin_dispose, (c, scope), r) ==> {
                &&& r <==> !c@.scopes[scope].disposed
                &&& final(c)@.scopes[scope].disposed
                &&& final(c)@.registrations == c@.registrations
                &&& final(c)@.services == c@.services
            },
        forall|c: &mut Context|
            #[trigger] call_ensures(Context::finish_dispose, (c, scope), ()) && c@.wf() ==> {
                let own = c@.scopes[scope].provided;
                let was = service_at(c@.services, key);
                &&& was is Some && own.contains_key(key) && own[key] == was->0.instance
                    ==> service_at(final(c)@.services, key) is None
                &&& !(was is Some && own.contains_key(key) && own[key] == was->0.instance)
                    ==> service_at(final(c)@.services, key) == was
                &&& final(c)@.registrations == c@.registrations
            },
{
    assert forall|c: &mut Context|
        #[trigger] call_ensures(Context::finish_dispose, (c, scope), ()) && c@.wf() implies {
        let own = c@.scopes[scope].provided;
        let was = service_at(c@.services, key);
        &&& was is Some && own.contains_key(key) && own[key] == was->0.instance ==> service_at(
            final(c)@.services,
            key,
        ) is None
        &&& !(was is Some && own.contains_key(key) && own[key] == was->0.instance) ==> service_at(
            final(c)@.services,
            key,
        ) == was
        &&& final(c)@.registrations == c@.registrations
    } by {
        reclaim_lookup(c@.services, c@.scopes[scope].provided, key);
    }
}

// ---- plugins ----

proof fn active_index_is_there(active: Seq<LoadedView>, name: Seq<char>)
    ensures
        active_index(active, name) >= 0 <==> exists|i: int|
            0 <= i < active.len() && (#[trigger] active[i]).name == name,
        -1 <= active_index(active, name) < active.len(),
        active_index(active, name) >= 0 ==> active[active_index(active, name)].name == name,
    decreases active.len(),
{
    if active.len() > 0 {
        let d = active.drop_last();
        active_index_is_there(d, name);
        if active.last().name == name {
            assert(active[active.len() - 1].name == name);
        } else {
            if active_index(d, name) >= 0 {
                let i = choose|i: int| 0 <= i < d.len() && (#[trigger] d[i]).name == name;
                assert(active[i].name == name);
            }
            if exists|i: int| 0 <= i < active.len() && (#[trigger] active[i]).name == name {
                let i = choose|i: int| 0 <= i < active.len() && (#[trigger] active[i]).name == name;
                assert(d[i].name == name);
            }
        }
    }
}

proof fn plugin_index_is_there<P: Plugin>(registry: Seq<P>, name: Seq<char>)
    ensures
        plugin_index(registry, name) >= 0 <==> titles(registry).contains(name),
        -1 <= plugin_index(registry, name) < registry.len(),
        plugin_index(registry, name) >= 0 ==> registry[plugin_index(registry, name)].title()
            == name,
    decreases registry.len(),
{
    let t = titles(registry);
    if registry.len() > 0 {
        let d = registry.drop_last();
        plugin_index_is_there(d, name);
        if registry.last().title() == name {
            assert(t[registry.len() - 1] == name);
        } else {
            if titles(d).contains(name) {
                let i = choose|i: int| 0 <= i < d.len() && titles(d)[i] == name;
                assert(t[i] == name);
            }
            if t.contains(name) {
                let i = choose|i: int| 0 <= i < t.len() && t[i] == name;
                assert(titles(d)[i] == name);
            }
        }
    }
}

proof fn all_plugins_are_there<P: Plugin>(more: Seq<P>)
    ensures
        forall|i: int|
            0 <= i < more.len() ==> titles(put_plugins(Seq::<P>::empty(), more)).contains(
                (#[trigger] more[i]).title(),
            ),
        more.len() > 0 ==> {
            let all = put_plugins(Seq::<P>::empty(), more);
            all[plugin_index(all, more.last().title())] == more.last()
        },
    decreases more.len(),
{
    if more.len() > 0 {
        let d = more.drop_last();
        let p = more.last();
        let before = put_plugins(Seq::<P>::empty(), d);
        let all = put_plugins(Seq::<P>::empty(), more);
        all_plugins_are_there(d);
        plugin_index_is_there(before, p.title());
        let k = plugin_index(before, p.title());
        let t = titles(all);
        let at = if k < 0 {
            before.len() as int
        } else {
            k
        };
        assert(all[at] == p);
        assert(t[at] == p.title());
        assert forall|i: int| 0 <= i < more.len() implies t.contains((#[trigger] more[i]).title()) by {
            if i < d.len() {
                assert(d[i] == more[i]);
                let x = more[i].title();
                let j = choose|j: int| 0 <= j < before.len() && titles(before)[j] == x;
                if j == k {
                    assert(t[k] == x);
                } else {
                    assert(t[j] == x);
                }
            }
        }
        put_is_found(before, p);
    }
}

proof fn put_is_found<P: Plugin>(registry: Seq<P>, p: P)
    ensures
        ({
            let all = put_plugin(registry, p);
            all[plugin_index(all, p.title())] == p
        }),
    decreases registry.len(),
{
    let all = put_plugin(registry, p);
    let k = plugin_index(registry, p.title());
    plugin_index_is_there(registry, p.title());
    if k >= 0 {
        if registry.last().title() == p.title() {
            assert(all.last() == p);
        } else {
            let d = registry.drop_last();
            put_is_found(d, p);
            assert(all.last() == registry.last());
            assert(all.drop_last() =~= put_plugin(d, p));
            plugin_index_is_there(put_plugin(d, p), p.title());
            assert(titles(put_plugin(d, p))[k] == p.title());
        }
    }
}

/// A loader begins with all the plugins that it was given, none of them loaded, and with
/// the model client as a service; of plugins of one name the last counts.
pub proof fn a_loader_knows_its_plugins<P: Plugin>(plugins: Vec<P>, r: Loader<P>, i: int, name: &str, b: bool)
    requires
        call_ensures(Loader::<P>::new, (plugins,), r),
    ensures
        0 <= i < plugins@.len() ==> titles(r@.registry).contains(plugins@[i].title()),
        plugins@.len() > 0 ==> r@.registry[plugin_index(
            r@.registry,
            plugins@.last().title(),
        )] == plugins@.last(),
        call_ensures(Loader::<P>::is_loaded, (&r, name), b) ==> !b,
        r@.active.len() == 0,
        service_at(r@.ctx.services, crate::llm::LlmService::key_spec()) is Some,
        r@.ctx.registrations.len() == 0,
{
    all_plugins_are_there(plugins@);
}

/// Whether a plugin is loaded is whether it is among those that are.
pub proof fn what_is_loaded_is_known<P: Plugin>(l: Loader<P>, name: &str, b: bool)
    requires
        call_ensures(Loader::<P>::is_loaded, (&l, name), b),
    ensures
        b <==> exists|i: int| 0 <= i < l@.active.len() && (#[trigger] l@.active[i]).name == name@,
{
    active_index_is_there(l@.active, name@);
}

/// A plugin that is loaded is loaded after the others, and is known to be; one that is
/// loaded already, or that there is not, is refused, and nothing changes; one that fails
/// is not loaded, and the cause is told.
pub proof fn plugins_are_loaded<P: Plugin>(
    name: &str,
    options: Option<String>,
    parsed: P::Options,
    r: Result<(), LoadError>,
    b: bool,
)
    ensures
        forall|l: &mut Loader<P>|
            #[trigger] call_ensures(Loader::<P>::load, (l, name, options, parsed), r) ==> {
                let had = exists|i: int|
                    0 <= i < l@.active.len() && (#[trigger] l@.active[i]).name == name@;
                let known = titles(l@.registry).contains(name@);
                &&& had ==> r is Err && r->Err_0 is AlreadyLoaded && final(l)@ == l@
                &&& !had && !known ==> r is Err && r->Err_0 is Unknown && texts(r->Err_0->Unknown_0@)
                    == titles(l@.registry) && final(l)@ == l@
                &&& r is Ok ==> {
                    &&& !had && known
                    &&& final(l)@.active.len() == l@.active.len() + 1
                    &&& final(l)@.active.last().name == name@
                    &&& final(l)@.active.last().scope == l@.ctx.next
                    &&& l@.active.is_prefix_of(final(l)@.active)
                    &&& call_ensures(Loader::<P>::is_loaded, (&*final(l), name), b) ==> b
                    &&& l@.ctx.registrations.is_prefix_of(final(l)@.ctx.registrations)
                }
                &&& r is Err ==> final(l)@.active == l@.active && final(l)@.ctx.registrations
                    == l@.ctx.registrations
                &&& final(l)@.registry == l@.registry
            },
{
    assert forall|l: &mut Loader<P>| #[trigger]
        call_ensures(Loader::<P>::load, (l, name, options, parsed), r) implies {
        let had = exists|i: int|
            0 <= i < l@.active.len() && (#[trigger] l@.active[i]).name == name@;
        let known = titles(l@.registry).contains(name@);
        &&& had ==> r is Err && r->Err_0 is AlreadyLoaded && final(l)@ == l@
        &&& !had && !known ==> r is Err && r->Err_0 is Unknown && texts(r->Err_0->Unknown_0@)
            == titles(l@.registry) && final(l)@ == l@
        &&& r is Ok ==> {
            &&& !had && known
            &&& final(l)@.active.len() == l@.active.len() + 1
            &&& final(l)@.active.last().name == name@
            &&& final(l)@.active.last().scope == l@.ctx.next
            &&& l@.active.is_prefix_of(final(l)@.active)
            &&& call_ensures(Loader::<P>::is_loaded, (&*final(l), name), b) ==> b
            &&& l@.ctx.registrations.is_prefix_of(final(l)@.ctx.registrations)
        }
        &&& r is Err ==> final(l)@.active == l@.active && final(l)@.ctx.registrations
            == l@.ctx.registrations
        &&& final(l)@.registry == l@.registry
    } by {
        active_index_is_there(l@.active, name@);
        plugin_index_is_there(l@.registry, name@);
        active_index_is_there(final(l)@.active, name@);
        if r is Ok {
            let a = l@.active;
            let z = final(l)@.active;
            assert(a =~= z.subrange(0, a.len() as int));
            assert(z[z.len() - 1].name == name@);
        }
    }
}

/// A plugin that is unloaded is no longer loaded, and all others are, in their order; its
/// effects are handed out, the last one first. One that is not loaded is refused by
/// name, and nothing changes.
pub proof fn plugins_are_unloaded<P: Plugin>(name: &str, r: Result<Vec<u64>, String>, b: bool, i: int, j: int)
    ensures
        forall|l: &mut Loader<P>|
            #[trigger] call_ensures(Loader::<P>::unload, (l, name), r) && l@.wf() ==> {
                let had = exists|k: int|
                    0 <= k < l@.active.len() && (#[trigger] l@.active[k]).name == name@;
                &&& r is Ok <==> had
                &&& !had ==> final(l)@ == l@ && contains_spec(r->Err_0@, name@)
                &&& call_ensures(Loader::<P>::is_loaded, (&*final(l), name), b) ==> !b
                &&& 0 <= i < l@.active.len() && l@.active[i].name == name@ ==> {
                    let scope = l@.active[i].scope;
                    &&& final(l)@.active == l@.active.remove(i)
                    &&& final(l)@.ctx.registrations == l@.ctx.registrations.filter(
                        |x: RegistrationView| x.scope != scope,
                    )
                    &&& r->Ok_0@ == numbers(
                        l@.ctx.registrations,
                        |x: RegistrationView| x.scope == scope && x.kind == KindView::Effect,
                    ).reverse()
                    &&& final(l)@.ctx.scopes[scope].disposed
                }
                &&& final(l)@.registry == l@.registry
            },
{
    assert forall|l: &mut Loader<P>|
        #[trigger] call_ensures(Loader::<P>::unload, (l, name), r) && l@.wf() implies {
        let had = exists|k: int|
            0 <= k < l@.active.len() && (#[trigger] l@.active[k]).name == name@;
        &&& r is Ok <==> had
        &&& !had ==> final(l)@ == l@ && contains_spec(r->Err_0@, name@)
        &&& call_ensures(Loader::<P>::is_loaded, (&*final(l), name), b) ==> !b
        &&& 0 <= i < l@.active.len() && l@.active[i].name == name@ ==> {
            let scope = l@.active[i].scope;
            &&& final(l)@.active == l@.active.remove(i)
            &&& final(l)@.ctx.registrations == l@.ctx.registrations.filter(
                |x: RegistrationView| x.scope != scope,
            )
            &&& r->Ok_0@ == numbers(
                l@.ctx.registrations,
                |x: RegistrationView| x.scope == scope && x.kind == KindView::Effect,
            ).reverse()
            &&& final(l)@.ctx.scopes[scope].disposed
        }
        &&& final(l)@.registry == l@.registry
    } by {
        active_index_is_there(l@.active, name@);
        let k = active_index(l@.active, name@);
        if k < 0 {
            what_is_between_stands("插件 `"@, name@, "` 未加载"@);
        }
        if 0 <= i < l@.active.len() && l@.active[i].name == name@ {
            if i < k {
                assert(l@.active[i].name != l@.active[k].name);
            } else if k < i {
                assert(l@.active[k].name != l@.active[i].name);
            }
            let scope = l@.active[i].scope;
            others_are_filtered(l@.ctx.registrations, scope);
            effects_are_numbers(l@.ctx.registrations, scope);
        }
    }
}

/// Every plugin that there is is listed, once and in order, with whether it is loaded.
pub proof fn every_plugin_is_listed<P: Plugin>(l: Loader<P>, r: Vec<PluginStatus>, i: int, j: int)
    requires
        call_ensures(Loader::<P>::list, (&l,), r),
    ensures
        r@.len() == l@.registry.len(),
        0 <= i < l@.registry.len() ==> exists|k: int|
            0 <= k < r@.len() && (#[trigger] r@[k]).name@ == l@.registry[i].title(),
        0 <= j < r@.len() ==> (r@[j].loaded <==> exists|k: int|
            0 <= k < l@.active.len() && (#[trigger] l@.active[k]).name == r@[j].name@),
        forall|a: int, b: int|
            0 <= a <= b < r@.len() ==> text_le((#[trigger] r@[a]).name@, (#[trigger] r@[b]).name@),
{
    let v = status_names(r@);
    let t = titles(l@.registry);
    v.to_multiset_ensures();
    t.to_multiset_ensures();
    assert(v.len() == r@.len());
    assert(t.len() == l@.registry.len());
    if 0 <= i < l@.registry.len() {
        assert(t[i] == l@.registry[i].title());
        assert(t.contains(t[i]));
        assert(v.to_multiset().count(t[i]) > 0);
        assert(v.contains(t[i]));
        let k = choose|k: int| 0 <= k < v.len() && v[k] == t[i];
        assert(r@[k].name@ == v[k]);
    }
    if 0 <= j < r@.len() {
        active_index_is_there(l@.active, r@[j].name@);
    }
    assert forall|a: int, b: int| 0 <= a <= b < r@.len() implies text_le(
        (#[trigger] r@[a]).name@,
        (#[trigger] r@[b]).name@,
    ) by {
        assert(v[a] == r@[a].name@ && v[b] == r@[b].name@);
        assert(text_le(v[a], v[b]));
    }
}

/// A plugin that was not loaded is told by its name and by the reason: the cause of a
/// failure, or every plugin that there is.
pub proof fn failed_loads_are_told(name: &str, known: Vec<String>, cause: String, undo: Vec<u64>, a: String, b: String, c: String, i: int)
    requires
        call_ensures(LoadError::message, (&LoadError::AlreadyLoaded, name), a),
        call_ensures(LoadError::message, (&LoadError::Unknown(known), name), b),
        call_ensures(LoadError::message, (&LoadError::Failed(cause, undo), name), c),
    ensures
        contains_spec(a@, name@),
        contains_spec(b@, name@),
        contains_spec(c@, name@),
        0 <= i < known@.len() ==> contains_spec(b@, known@[i]@),
        cause@.is_suffix_of(c@),
{
    what_is_between_stands("插件 `"@, name@, "` 已加载"@);
    let list = join_spec(texts(known@), ", "@);
    let tail = "`;可用: "@ + list;
    assert(b@ =~= "未知插件 `"@ + name@ + tail);
    what_is_between_stands("未知插件 `"@, name@, tail);
    let end = "` 启动失败: "@ + cause@;
    assert(c@ =~= "插件 `"@ + name@ + end);
    what_is_between_stands("插件 `"@, name@, end);
    assert(cause@ =~= c@.subrange(c@.len() - cause@.len(), c@.len() as int));
    if 0 <= i < known@.len() {
        assert(texts(known@)[i] == known@[i]@);
        let at = joined_texts_stand(texts(known@), ", "@, i);
        assert(occurs_at(list, known@[i]@, at));
        let none = Seq::<char>::empty();
        let head = "未知插件 `"@ + name@ + "`;可用: "@;
        assert(b@ =~= head + list + none);
        what_is_between_stands(head, list, none);
        standing_is_passed_on(b@, list, known@[i]@);
    }
}

}  // verus!
