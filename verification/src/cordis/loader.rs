//! The loader: it knows the plugins that there are, gives each one that is
//! loaded a scope of its own, and disposes that scope when it is unloaded.

use crate::cordis::context::{
    disposed_spec, effects_of, fresh_scope, service_at, Context, ContextView, ProvidedView,
    ScopeView,
};
use crate::cordis::plugin::{applied, grows, unload_rolls_back, Plugin};
use crate::cordis::service::Service;
use crate::llm::LlmService;
use crate::text::order::{in_order, sort};
use crate::text::search::opt_text;
use crate::text::{join, join_spec, same, texts};
use vstd::prelude::*;
use vstd::string::*;

verus! {

/// The loader as a service, for plugins that load others.
pub struct LoaderService;

impl Service for LoaderService {
    open spec fn key_spec() -> u64 {
        9
    }

    open spec fn title() -> Seq<char> {
        "loader"@
    }

    fn key() -> (r: u64) {
        9
    }

    fn service_name_static() -> (r: &'static str) {
        "loader"
    }
}

/// A plugin that is loaded, and its scope.
pub struct LoadedPlugin {
    pub name: String,
    pub scope: u64,
}

#[verifier::ext_equal]
pub struct LoadedView {
    pub name: Seq<char>,
    pub scope: u64,
}

impl View for LoadedPlugin {
    type V = LoadedView;

    open spec fn view(&self) -> LoadedView {
        LoadedView { name: self.name@, scope: self.scope }
    }
}

pub open spec fn loaded_views(v: Seq<LoadedPlugin>) -> Seq<LoadedView> {
    v.map_values(|l: LoadedPlugin| l@)
}

/// A plugin that there is, and whether it is loaded.
pub struct PluginStatus {
    pub name: String,
    pub loaded: bool,
}

/// The names in a list of plugins.
pub open spec fn status_names(v: Seq<PluginStatus>) -> Seq<Seq<char>> {
    v.map_values(|p: PluginStatus| p.name@)
}

/// Why a plugin was not loaded.
pub enum LoadError {
    AlreadyLoaded,
    /// There is no such plugin; these there are.
    Unknown(Vec<String>),
    /// The plugin did not start, and why; its scope has been disposed, and these
    /// effects are to be run.
    Failed(String, Vec<u64>),
}

impl LoadError {
    /// The message for a plugin that was not loaded.
    pub open spec fn message_spec(&self, name: Seq<char>) -> Seq<char> {
        match self {
            LoadError::AlreadyLoaded => "插件 `"@ + name + "` 已加载"@,
            LoadError::Unknown(known) => "未知插件 `"@ + name + "`;可用: "@ + join_spec(
                texts(known@),
                ", "@,
            ),
            LoadError::Failed(cause, _) => "插件 `"@ + name + "` 启动失败: "@ + cause@,
        }
    }

    pub fn message(&self, name: &str) -> (r: String)
        ensures
            r@ == self.message_spec(name@),
    {
        match self {
            LoadError::AlreadyLoaded => {
                let mut m = "插件 `".to_string();
                m.append(name);
                m.append("` 已加载");
                m
            },
            LoadError::Unknown(known) => {
                let mut m = "未知插件 `".to_string();
                m.append(name);
                m.append("`;可用: ");
                m.append(join(known, ", ").as_str());
                m
            },
            LoadError::Failed(cause, _) => {
                let mut m = "插件 `".to_string();
                m.append(name);
                m.append("` 启动失败: ");
                m.append(cause.as_str());
                m
            },
        }
    }
}

/// The message for a plugin that was to be unloaded and is not loaded.
pub open spec fn not_loaded_spec(name: Seq<char>) -> Seq<char> {
    "插件 `"@ + name + "` 未加载"@
}

pub struct Loader<P: Plugin> {
    ctx: Context,
    registry: Vec<P>,
    active: Vec<LoadedPlugin>,
}

#[verifier::ext_equal]
pub struct LoaderView<P> {
    pub ctx: ContextView,
    /// The plugins that there are.
    pub registry: Seq<P>,
    /// The plugins that are loaded, in the order in which they were loaded.
    pub active: Seq<LoadedView>,
}

impl<P: Plugin> View for Loader<P> {
    type V = LoaderView<P>;

    closed spec fn view(&self) -> LoaderView<P> {
        LoaderView {
            ctx: self.ctx@,
            registry: self.registry@,
            active: loaded_views(self.active@),
        }
    }
}

/// The names of some plugins.
pub open spec fn titles<P: Plugin>(registry: Seq<P>) -> Seq<Seq<char>> {
    registry.map_values(|p: P| p.title())
}

/// Where a plugin stands among the loaded ones; -1 where it is not loaded.
pub open spec fn active_index(active: Seq<LoadedView>, name: Seq<char>) -> int
    decreases active.len(),
{
    if active.len() == 0 {
        -1
    } else if active.last().name == name {
        active.len() - 1
    } else {
        active_index(active.drop_last(), name)
    }
}

/// Where a plugin stands among those that there are; -1 where there is none of
/// that name.
pub open spec fn plugin_index<P: Plugin>(registry: Seq<P>, name: Seq<char>) -> int
    decreases registry.len(),
{
    if registry.len() == 0 {
        -1
    } else if registry.last().title() == name {
        registry.len() - 1
    } else {
        plugin_index(registry.drop_last(), name)
    }
}

/// The plugins that there are after one has been added: it takes the place of
/// the one with the same name.
pub open spec fn put_plugin<P: Plugin>(registry: Seq<P>, p: P) -> Seq<P> {
    let i = plugin_index(registry, p.title());
    if i < 0 {
        registry.push(p)
    } else {
        registry.update(i, p)
    }
}

pub open spec fn put_plugins<P: Plugin>(registry: Seq<P>, more: Seq<P>) -> Seq<P>
    decreases more.len(),
{
    if more.len() == 0 {
        registry
    } else {
        put_plugin(put_plugins(registry, more.drop_last()), more.last())
    }
}

impl<P: Plugin> LoaderView<P> {
    /// What holds of every loader: a plugin is there once and loaded once, and
    /// what is loaded has a scope of its own that is not disposed.
    pub open spec fn wf(self) -> bool {
        &&& self.ctx.wf()
        &&& titles(self.registry).no_duplicates()
        &&& forall|i: int, j: int|
            0 <= i < j < self.active.len() ==> (#[trigger] self.active[i]).name != (
            #[trigger] self.active[j]).name
        &&& forall|i: int, j: int|
            0 <= i < j < self.active.len() ==> (#[trigger] self.active[i]).scope != (
            #[trigger] self.active[j]).scope
        &&& forall|i: int|
            0 <= i < self.active.len() ==> self.ctx.scopes.contains_key(
                (#[trigger] self.active[i]).scope,
            ) && !self.ctx.scopes[self.active[i].scope].disposed && self.active[i].scope
                != self.ctx.root
    }

    pub open spec fn loaded(self, name: Seq<char>) -> bool {
        active_index(self.active, name) >= 0
    }

    /// Whether enough numbers are left to load any plugin.
    pub open spec fn room(self) -> bool {
        forall|i: int|
            0 <= i < self.registry.len() ==> self.ctx.next + 1 + (
            #[trigger] self.registry[i]).demand() <= u64::MAX
    }

    /// The context with a new scope for a plugin, which has its options.
    pub open spec fn forked(self, options: Option<Seq<char>>) -> ContextView {
        ContextView {
            next: (self.ctx.next + 1) as u64,
            scopes: self.ctx.scopes.insert(
                self.ctx.next,
                ScopeView { options, ..fresh_scope() },
            ),
            ..self.ctx
        }
    }
}

proof fn active_index_facts(active: Seq<LoadedView>, name: Seq<char>)
    ensures
        -1 <= active_index(active, name) < active.len(),
        active_index(active, name) >= 0 ==> active[active_index(active, name)].name == name,
        active_index(active, name) < 0 ==> forall|i: int|
            0 <= i < active.len() ==> (#[trigger] active[i]).name != name,
    decreases active.len(),
{
    if active.len() > 0 && active.last().name != name {
        let head = active.drop_last();
        active_index_facts(head, name);
        assert forall|i: int|
            active_index(active, name) < 0 && 0 <= i < active.len() implies (
        #[trigger] active[i]).name != name by {
            if i < head.len() {
                assert(head[i] == active[i]);
            }
        }
    }
}

proof fn plugin_index_facts<P: Plugin>(registry: Seq<P>, name: Seq<char>)
    ensures
        -1 <= plugin_index(registry, name) < registry.len(),
        plugin_index(registry, name) >= 0 ==> registry[plugin_index(registry, name)].title()
            == name,
        plugin_index(registry, name) < 0 ==> !titles(registry).contains(name),
    decreases registry.len(),
{
    if registry.len() > 0 && registry.last().title() != name {
        let head = registry.drop_last();
        plugin_index_facts(head, name);
        if plugin_index(registry, name) < 0 && titles(registry).contains(name) {
            let i = choose|i: int| 0 <= i < registry.len() && titles(registry)[i] == name;
            assert(i < head.len());
            assert(titles(head)[i] == name);
        }
    }
}

proof fn put_plugin_distinct<P: Plugin>(registry: Seq<P>, p: P)
    requires
        titles(registry).no_duplicates(),
    ensures
        titles(put_plugin(registry, p)).no_duplicates(),
{
    plugin_index_facts(registry, p.title());
    let i = plugin_index(registry, p.title());
    let t = titles(put_plugin(registry, p));
    if i >= 0 {
        assert(t =~= titles(registry));
    } else {
        assert(t =~= titles(registry).push(p.title()));
        assert forall|a: int, b: int| 0 <= a < t.len() && 0 <= b < t.len() && a != b implies t[a]
            != t[b] by {
            if a < registry.len() && b < registry.len() {
                assert(titles(registry)[a] != titles(registry)[b]);
            } else if a < registry.len() {
                assert(titles(registry).contains(t[a]));
            } else {
                assert(titles(registry).contains(t[b]));
            }
        }
    }
}

/// What a load comes to when applying the plugin has come to `after` and `a`: the
/// plugin is loaded in a scope that has grown by what it registered, or the scope
/// is disposed, and nothing of it is left.
pub open spec fn load_comes_to<P: Plugin>(
    l: LoaderView<P>,
    name: Seq<char>,
    options: Option<Seq<char>>,
    parsed: P::Options,
    after: ContextView,
    a: Result<(), Seq<char>>,
    now: LoaderView<P>,
    r: Result<(), LoadError>,
) -> bool {
    let scope = l.ctx.next;
    let plugin = l.registry[plugin_index(l.registry, name)];
    &&& plugin.may_come_to(l.forked(options), scope, parsed, after, a)
    &&& after.wf()
    &&& grows(l.forked(options), after, scope)
    &&& match a {
        Ok(_) => r is Ok && now == (LoaderView {
            ctx: after,
            active: l.active.push(LoadedView { name, scope }),
            ..l
        }),
        Err(cause) => (r matches Err(LoadError::Failed(c, undo)) && c@ == cause && undo@
            == effects_of(after.registrations, scope).reverse()) && now == (LoaderView {
            ctx: disposed_spec(after, scope),
            ..l
        }) && now.ctx.registrations == l.ctx.registrations,
    }
}

impl<P: Plugin> Loader<P> {
    /// A loader for some plugins, with the shared model client as a service of
    /// the root scope. Of two plugins of one name the later counts.
    pub fn new(plugins: Vec<P>) -> (r: Loader<P>)
        ensures
            r@.wf(),
            r@.registry == put_plugins(Seq::empty(), plugins@),
            r@.active == Seq::<LoadedView>::empty(),
            r@.ctx.root == 1,
            r@.ctx.next == 3,
            r@.ctx.registrations.len() == 0,
            r@.ctx.services == seq![
                ProvidedView { key: LlmService::key_spec(), name: LlmService::title(), instance: 2 },
            ],
            r@.ctx.scopes == Map::<u64, ScopeView>::empty().insert(
                1,
                ScopeView {
                    provided: Map::<u64, u64>::empty().insert(LlmService::key_spec(), 2),
                    ..fresh_scope()
                },
            ),
    {
        let mut ctx = Context::new();
        let root: u64 = ctx.id();
        let instance: u64 = ctx.next_id();
        ctx.provide::<LlmService>(root, instance);
        proof {
            let p = ProvidedView {
                key: LlmService::key_spec(),
                name: LlmService::title(),
                instance: 2,
            };
            assert(ctx@.services =~= seq![p]);
            assert(ctx@.scopes =~= Map::<u64, ScopeView>::empty().insert(
                1,
                ScopeView {
                    provided: Map::<u64, u64>::empty().insert(LlmService::key_spec(), 2),
                    ..fresh_scope()
                },
            ));
        }
        let mut registry: Vec<P> = Vec::new();
        let ghost all = plugins@;
        assert(registry@ =~= Seq::empty());
        assert(all.take(0).len() == 0);
        for p in it: plugins
            invariant
                it.seq() == all,
                titles(registry@).no_duplicates(),
                registry@ == put_plugins(Seq::empty(), all.take(it.index() as int)),
        {
            let ghost before = registry@;
            let ghost k = it.index() as int;
            assert(all.take(k + 1).drop_last() =~= all.take(k));
            proof {
                put_plugin_distinct(before, p);
                plugin_index_facts(before, p.title());
            }
            let name = p.name();
            match Self::find_plugin(&registry, name) {
                Some(i) => {
                    registry.set(i, p);
                },
                None => {
                    registry.push(p);
                },
            }
        }
        assert(all.take(all.len() as int) =~= all);
        let r = Loader { ctx, registry, active: Vec::new() };
        assert(r@.active =~= Seq::<LoadedView>::empty());
        r
    }

    fn find_plugin(registry: &Vec<P>, name: &str) -> (r: Option<usize>)
        ensures
            match r {
                Some(i) => plugin_index(registry@, name@) == i && i < registry@.len(),
                None => plugin_index(registry@, name@) < 0,
            },
    {
        let ghost all = registry@;
        let mut i: usize = registry.len();
        assert(all.take(i as int) =~= all);
        while i > 0
            invariant
                i <= registry@.len(),
                all == registry@,
                plugin_index(all, name@) == plugin_index(all.take(i as int), name@),
            decreases i,
        {
            assert(all.take(i as int).drop_last() =~= all.take(i as int - 1));
            if same(registry[i - 1].name(), name) {
                return Some(i - 1);
            }
            i -= 1;
        }
        None
    }

    fn find_active(&self, name: &str) -> (r: Option<usize>)
        ensures
            match r {
                Some(i) => active_index(self@.active, name@) == i && i < self.active@.len(),
                None => active_index(self@.active, name@) < 0,
            },
    {
        let ghost all = self@.active;
        let mut i: usize = self.active.len();
        assert(all.take(i as int) =~= all);
        while i > 0
            invariant
                i <= self.active@.len(),
                all == loaded_views(self.active@),
                all == self@.active,
                active_index(all, name@) == active_index(all.take(i as int), name@),
            decreases i,
        {
            assert(all.take(i as int).drop_last() =~= all.take(i as int - 1));
            assert(all[i as int - 1] == self.active@[i as int - 1]@);
            if same(self.active[i - 1].name.as_str(), name) {
                return Some(i - 1);
            }
            i -= 1;
        }
        None
    }

    /// The context.
    pub fn root(&self) -> (r: &Context)
        ensures
            r@ == self@.ctx,
    {
        &self.ctx
    }

    pub fn is_loaded(&self, name: &str) -> (r: bool)
        ensures
            r == self@.loaded(name@),
    {
        match self.find_active(name) {
            Some(_) => true,
            None => false,
        }
    }

    fn known(&self) -> (r: Vec<String>)
        ensures
            texts(r@) == titles(self@.registry),
    {
        let mut out: Vec<String> = Vec::new();
        let mut i: usize = 0;
        while i < self.registry.len()
            invariant
                i <= self.registry@.len(),
                out@.len() == i,
                forall|k: int| 0 <= k < i ==> (#[trigger] out@[k])@ == self.registry@[k].title(),
            decreases self.registry@.len() - i,
        {
            out.push(self.registry[i].name().to_string());
            i += 1;
        }
        assert(texts(out@) =~= titles(self@.registry));
        out
    }

    /// Gives a plugin a scope with its options; says where the plugin stands, and
    /// which scope it is.
    pub fn begin_load(&mut self, name: &str, options: Option<String>) -> (r: Result<
        (usize, u64),
        LoadError,
    >)
        requires
            old(self)@.wf(),
            old(self)@.ctx.next < u64::MAX,
        ensures
            final(self)@.wf(),
            match r {
                Ok((i, scope)) => !old(self)@.loaded(name@) && i == plugin_index(
                    old(self)@.registry,
                    name@,
                ) && scope == old(self)@.ctx.next && final(self)@ == (LoaderView {
                    ctx: old(self)@.forked(opt_text(options)),
                    ..old(self)@
                }),
                Err(LoadError::AlreadyLoaded) => old(self)@.loaded(name@) && final(self)@
                    == old(self)@,
                Err(LoadError::Unknown(known)) => !old(self)@.loaded(name@) && plugin_index(
                    old(self)@.registry,
                    name@,
                ) < 0 && texts(known@) == titles(old(self)@.registry) && final(self)@
                    == old(self)@,
                Err(LoadError::Failed(_, _)) => false,
            },
    {
        let ghost before = self@;
        if self.is_loaded(name) {
            return Err(LoadError::AlreadyLoaded);
        }
        match Self::find_plugin(&self.registry, name) {
            Some(i) => {
                let scope: u64 = self.ctx.fork();
                self.ctx.set_options(scope, options);
                assert(self@.ctx.scopes =~= before.forked(
                    opt_text(options),
                ).scopes);
                assert(self@.ctx =~= before.forked(opt_text(options)));
                assert(self@.wf()) by {
                    assert forall|k: int| 0 <= k < self@.active.len() implies self@.ctx.scopes.contains_key(
                        (#[trigger] self@.active[k]).scope,
                    ) && !self@.ctx.scopes[self@.active[k].scope].disposed && self@.active[k].scope
                        != self@.ctx.root by {
                        assert(before.ctx.scopes.contains_key(before.active[k].scope));
                    }
                }
                Ok((i, scope))
            },
            None => Err(LoadError::Unknown(self.known())),
        }
    }

    /// Ends a load, by what applying the plugin gave: the plugin is loaded, or its
    /// scope is disposed.
    pub fn finish_load(&mut self, name: &str, scope: u64, done: Result<(), String>) -> (r: Result<
        (),
        LoadError,
    >)
        requires
            old(self)@.wf(),
            !old(self)@.loaded(name@),
            old(self)@.ctx.scopes.contains_key(scope),
            !old(self)@.ctx.scopes[scope].disposed,
            scope != old(self)@.ctx.root,
            forall|i: int|
                0 <= i < old(self)@.active.len() ==> (#[trigger] old(self)@.active[i]).scope
                    != scope,
        ensures
            final(self)@.wf(),
            match done {
                Ok(_) => r is Ok && final(self)@ == (LoaderView {
                    active: old(self)@.active.push(LoadedView { name: name@, scope }),
                    ..old(self)@
                }),
                Err(cause) => final(self)@ == (LoaderView {
                    ctx: disposed_spec(old(self)@.ctx, scope),
                    ..old(self)@
                }) && (r matches Err(LoadError::Failed(c, undo)) && c@ == cause@ && undo@
                    == effects_of(old(self)@.ctx.registrations, scope).reverse()),
            },
    {
        let ghost before = self@;
        match done {
            Ok(_) => {
                proof {
                    active_index_facts(before.active, name@);
                }
                self.active.push(LoadedPlugin { name: name.to_string(), scope });
                assert(self@.active =~= before.active.push(LoadedView { name: name@, scope }));
                Ok(())
            },
            Err(cause) => {
                let undo = self.ctx.dispose(scope);
                Err(LoadError::Failed(cause, undo))
            },
        }
    }

    /// Loads a plugin: a scope of its own, its options, and then it is applied.
    /// Where that fails, the scope is disposed at once. What applying comes to is
    /// the plugin's.
    pub fn load(
        &mut self,
        name: &str,
        options: Option<String>,
        parsed: P::Options,
    ) -> (r: Result<(), LoadError>)
        requires
            old(self)@.wf(),
            old(self)@.room(),
            old(self)@.ctx.next < u64::MAX,
        ensures
            final(self)@.wf(),
            final(self)@.registry == old(self)@.registry,
            if old(self)@.loaded(name@) {
                r matches Err(LoadError::AlreadyLoaded) && final(self)@ == old(self)@
            } else if plugin_index(old(self)@.registry, name@) < 0 {
                r matches Err(LoadError::Unknown(known)) && texts(known@) == titles(
                    old(self)@.registry,
                ) && final(self)@ == old(self)@
            } else {
                exists|after: ContextView, a: Result<(), Seq<char>>| #[trigger]
                    load_comes_to(
                        old(self)@,
                        name@,
                        opt_text(options),
                        parsed,
                        after,
                        a,
                        final(self)@,
                        r,
                    )
            },
    {
        let ghost before = self@;
        let ghost written = opt_text(options);
        let ghost meant = parsed;
        match self.begin_load(name, options) {
            Ok((i, scope)) => {
                let ghost forked = self@.ctx;
                proof {
                    plugin_index_facts(before.registry, name@);
                }
                let done = self.registry[i].apply(&mut self.ctx, scope, parsed);
                let ghost a = applied(done);
                let ghost grown = self@.ctx;
                proof {
                    assert(forked.scopes.dom() =~= before.ctx.scopes.dom().insert(scope));
                    unload_rolls_back(before.ctx, forked, grown, scope);
                    assert forall|k: int| 0 <= k < self@.active.len() implies (
                    #[trigger] self@.active[k]).scope != scope && grown.scopes.contains_key(
                        self@.active[k].scope,
                    ) && !grown.scopes[self@.active[k].scope].disposed && self@.active[k].scope
                        != grown.root by {
                        let s = before.active[k].scope;
                        assert(before.ctx.scopes.contains_key(s));
                        assert(forked.scopes.contains_key(s));
                        assert(grown.scopes[s] == forked.scopes[s]);
                    }
                }
                let r = self.finish_load(name, scope, done);
                assert(load_comes_to(before, name@, written, meant, grown, a, self@, r));
                r
            },
            Err(e) => Err(e),
        }
    }

    /// Unloads a plugin: its scope is disposed. What comes back are the plain
    /// effects of the scope, in the order in which they are to be run.
    pub fn unload(&mut self, name: &str) -> (r: Result<Vec<u64>, String>)
        requires
            old(self)@.wf(),
        ensures
            final(self)@.wf(),
            ({
                let i = active_index(old(self)@.active, name@);
                if i >= 0 {
                    let scope = old(self)@.active[i].scope;
                    &&& r is Ok
                    &&& r->Ok_0@ == effects_of(
                        old(self)@.ctx.registrations,
                        scope,
                    ).reverse()
                    &&& final(self)@ == unloaded(old(self)@, name@)
                } else {
                    r is Err && r->Err_0@ == not_loaded_spec(name@) && final(self)@ == old(self)@
                }
            }),
            !final(self)@.loaded(name@),
    {
        let ghost before = self@;
        match self.find_active(name) {
            Some(i) => {
                proof {
                    active_index_facts(before.active, name@);
                    assert(before.active[i as int] == self.active@[i as int]@);
                }
                let lp = self.active.remove(i);
                let undo = self.ctx.dispose(lp.scope);
                assert(self@.active =~= before.active.remove(i as int));
                proof {
                    let after = self@.active;
                    active_index_facts(after, name@);
                    assert forall|k: int| 0 <= k < after.len() implies (
                    #[trigger] after[k]).name != name@ && after[k].scope != lp.scope by {
                        let pk = if k < i {
                            k
                        } else {
                            k + 1
                        };
                        assert(after[k] == before.active[pk]);
                        if pk < i {
                            assert(before.active[pk].name != before.active[i as int].name);
                        } else {
                            assert(before.active[i as int].name != before.active[pk].name);
                        }
                    }
                    assert forall|a: int, b: int| 0 <= a < b < after.len() implies (
                    #[trigger] after[a]).name != (#[trigger] after[b]).name && after[a].scope
                        != after[b].scope by {
                        let pa = if a < i {
                            a
                        } else {
                            a + 1
                        };
                        let pb = if b < i {
                            b
                        } else {
                            b + 1
                        };
                        assert(before.active[pa].name != before.active[pb].name);
                        assert(before.active[pa].scope != before.active[pb].scope);
                    }
                    assert forall|k: int| 0 <= k < after.len() implies self@.ctx.scopes.contains_key(
                        (#[trigger] after[k]).scope,
                    ) && !self@.ctx.scopes[after[k].scope].disposed && after[k].scope
                        != self@.ctx.root by {
                        let pk = if k < i {
                            k
                        } else {
                            k + 1
                        };
                        assert(after[k] == before.active[pk]);
                        assert(before.ctx.scopes.contains_key(before.active[pk].scope));
                    }
                }
                Ok(undo)
            },
            None => {
                let mut m = "插件 `".to_string();
                m.append(name);
                m.append("` 未加载");
                Err(m)
            },
        }
    }

    /// The context, to register and to dispatch with.
    pub fn root_mut(&mut self) -> (r: &mut Context)
        ensures
            r@ == old(self)@.ctx,
            final(self)@ == (LoaderView { ctx: final(r)@, ..old(self)@ }),
    {
        &mut self.ctx
    }

    /// The plugins that there are, in the order of their names.
    pub fn list(&self) -> (r: Vec<PluginStatus>)
        ensures
            in_order(status_names(r@)),
            status_names(r@).to_multiset() == titles(self@.registry).to_multiset(),
            forall|i: int|
                0 <= i < r@.len() ==> (#[trigger] r@[i]).loaded == self@.loaded(r@[i].name@),
    {
        let names = sort(self.known());
        let mut out: Vec<PluginStatus> = Vec::new();
        let mut i: usize = 0;
        while i < names.len()
            invariant
                i <= names@.len(),
                out@.len() == i,
                forall|k: int|
                    0 <= k < i ==> (#[trigger] out@[k]).name@ == names@[k]@ && out@[k].loaded
                        == self@.loaded(names@[k]@),
            decreases names@.len() - i,
        {
            let loaded = self.is_loaded(names[i].as_str());
            out.push(PluginStatus { name: names[i].clone(), loaded });
            i += 1;
        }
        assert(status_names(out@) =~= texts(names@));
        out
    }
}

/// A loader after a plugin that is loaded has been unloaded.
pub open spec fn unloaded<P: Plugin>(l: LoaderView<P>, name: Seq<char>) -> LoaderView<P> {
    let i = active_index(l.active, name);
    LoaderView {
        ctx: disposed_spec(l.ctx, l.active[i].scope),
        active: l.active.remove(i),
        ..l
    }
}

/// Whether nothing of a plugin is left in a context: the same handlers, commands
/// and effects are registered as before, and other scopes are what they were. A
/// service is what it was, or gone where the plugin had put another in its place;
/// none is there that was not there before.
pub open spec fn rolled_back(before: ContextView, after: ContextView) -> bool {
    &&& after.registrations == before.registrations
    &&& forall|key: u64|
        #[trigger] service_at(after.services, key) == service_at(before.services, key)
            || service_at(after.services, key) is None
    &&& forall|s: u64|
        before.scopes.contains_key(s) ==> #[trigger] after.scopes[s] == before.scopes[s]
}

/// A plugin that is loaded and unloaded again leaves no trace: the same plugins
/// are loaded as before, and nothing of it is left in the context.
pub proof fn unload_undoes_load<P: Plugin>(
    l: LoaderView<P>,
    name: Seq<char>,
    options: Option<Seq<char>>,
    parsed: P::Options,
    after: ContextView,
    loaded: LoaderView<P>,
)
    requires
        l.wf(),
        l.ctx.next < u64::MAX,
        load_comes_to(l, name, options, parsed, after, Ok(()), loaded, Ok(())),
    ensures
        unloaded(loaded, name).active == l.active,
        unloaded(loaded, name).registry == l.registry,
        rolled_back(l.ctx, unloaded(loaded, name).ctx),
{
    let scope = l.ctx.next;
    let forked = l.forked(options);
    assert(active_index(loaded.active, name) == l.active.len());
    assert(loaded.active.remove(l.active.len() as int) =~= l.active);
    assert(forked.scopes.dom() =~= l.ctx.scopes.dom().insert(scope));
    unload_rolls_back(l.ctx, forked, after, scope);
}

/// A plugin that fails when it is applied leaves no trace either.
pub proof fn failed_load_leaves_nothing<P: Plugin>(
    l: LoaderView<P>,
    name: Seq<char>,
    options: Option<Seq<char>>,
    parsed: P::Options,
    after: ContextView,
    cause: Seq<char>,
    now: LoaderView<P>,
    r: Result<(), LoadError>,
)
    requires
        l.wf(),
        l.ctx.next < u64::MAX,
        load_comes_to(l, name, options, parsed, after, Err(cause), now, r),
    ensures
        now.active == l.active,
        now.registry == l.registry,
        rolled_back(l.ctx, now.ctx),
{
    let scope = l.ctx.next;
    let forked = l.forked(options);
    assert(forked.scopes.dom() =~= l.ctx.scopes.dom().insert(scope));
    unload_rolls_back(l.ctx, forked, after, scope);
}

}  // verus!
