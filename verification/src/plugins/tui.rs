//! The terminal plugin: what a key does, what is shown, and the commands that
//! steer the shell.

use crate::cordis::context::{
    provided_spec, service_at, Context, ContextView, KindView, ProvidedView,
};
use crate::cordis::event::Event;
use crate::cordis::loader::{LoadError, LoaderService, PluginStatus};
use crate::cordis::plugin::{
    grows_counted, grows_provided, grows_reflexive, grows_registered, names, Plugin,
};
use crate::cordis::service::Service;
use crate::events::{SessionReply, SessionStatus};
use crate::llm::{LlmClient, LlmService};
use crate::text::number::{decimal, decimal_spec};
use crate::text::search::{strip_prefix, strip_prefix_spec};
use crate::text::split::{first_word, first_word_spec, lines, lines_spec};
use crate::text::trim::{trim, trim_spec};
use crate::text::{chars_of, join, join_spec, string_of, texts};
use crate::tui::app::{status_line, with_line, App, AppView};
use crate::tui::style::{no_style, span_views, Color, LineView, Span, SpanView, Style};
use vstd::prelude::*;
use vstd::string::*;

verus! {

/// What the terminal is told.
pub enum UiEvent {
    Reply(String),
    Status(String),
}

/// A key that was pressed.
pub enum Key {
    /// A character, and whether the control key was held.
    Char(char, bool),
    Esc,
    Enter,
    Backspace,
    PageUp,
    PageDown,
    Other,
}

/// What follows a key besides what it changes on the screen.
pub enum KeyAction {
    Nothing,
    /// Leave the shell.
    Quit,
    /// Run this command.
    Command(String),
    /// The user has said this.
    Say(String),
    /// Cancel the call that is running.
    Interrupt,
}

#[verifier::ext_equal]
pub enum KeyActionView {
    Nothing,
    Quit,
    Command(Seq<char>),
    Say(Seq<char>),
    Interrupt,
}

impl View for KeyAction {
    type V = KeyActionView;

    open spec fn view(&self) -> KeyActionView {
        match self {
            KeyAction::Nothing => KeyActionView::Nothing,
            KeyAction::Quit => KeyActionView::Quit,
            KeyAction::Command(c) => KeyActionView::Command(c@),
            KeyAction::Say(t) => KeyActionView::Say(t@),
            KeyAction::Interrupt => KeyActionView::Interrupt,
        }
    }
}

/// A bold span of a colour.
pub open spec fn label_style(c: Color) -> Style {
    Style { fg: Some(c), bold: true, italic: false, underlined: false }
}

/// A line with who says it.
pub open spec fn speech_line(who: Seq<char>, c: Color, text: Seq<char>) -> LineView {
    LineView {
        spans: seq![
            SpanView { content: who, style: label_style(c) },
            SpanView { content: text, style: no_style() },
        ],
        style: no_style(),
    }
}

fn speech(who: &str, c: Color, text: &str) -> (r: Vec<Span>)
    ensures
        span_views(r@) == speech_line(who@, c, text@).spans,
{
    let mut spans: Vec<Span> = Vec::new();
    spans.push(
        Span::styled(
            who.to_string(),
            Style { fg: Some(c), bold: true, italic: false, underlined: false },
        ),
    );
    spans.push(Span::raw(text.to_string()));
    assert(span_views(spans@) =~= speech_line(who@, c, text@).spans);
    spans
}

/// What a key does: the screen after it, and what follows.
pub open spec fn key_spec(app: AppView, key: Key) -> (AppView, KeyActionView) {
    match key {
        Key::Char(c, control) => if control && c == 'c' {
            (app, KeyActionView::Quit)
        } else {
            (AppView { input: app.input.push(c), ..app }, KeyActionView::Nothing)
        },
        Key::Esc => (AppView { input: Seq::empty(), ..app }, KeyActionView::Interrupt),
        Key::Enter => {
            let text = trim_spec(app.input);
            let sent = AppView { input: Seq::empty(), scroll: 0, ..app };
            if text.len() == 0 {
                (sent, KeyActionView::Nothing)
            } else {
                match strip_prefix_spec(text, "/"@) {
                    Some(cmd) => (sent, KeyActionView::Command(cmd)),
                    None => (
                        AppView {
                            lines: with_line(sent.lines, speech_line("你 "@, Color::Cyan, text)),
                            ..sent
                        },
                        KeyActionView::Say(text),
                    ),
                }
            }
        },
        Key::Backspace => (
            AppView {
                input: if app.input.len() > 0 {
                    app.input.drop_last()
                } else {
                    app.input
                },
                ..app
            },
            KeyActionView::Nothing,
        ),
        Key::PageUp => (
            AppView {
                scroll: if app.scroll > u16::MAX - 5 {
                    u16::MAX
                } else {
                    (app.scroll + 5) as u16
                },
                ..app
            },
            KeyActionView::Nothing,
        ),
        Key::PageDown => (
            AppView {
                scroll: if app.scroll < 5 {
                    0
                } else {
                    (app.scroll - 5) as u16
                },
                ..app
            },
            KeyActionView::Nothing,
        ),
        Key::Other => (app, KeyActionView::Nothing),
    }
}

/// Does what a key does to the screen, and says what follows.
pub fn on_key(app: &mut App, key: Key) -> (r: KeyAction)
    ensures
        (final(app)@, r@) == key_spec(old(app)@, key),
{
    let ghost before = app@;
    match key {
        Key::Char(c, control) => {
            if control && c == 'c' {
                return KeyAction::Quit;
            }
            app.input.push(c);
            KeyAction::Nothing
        },
        Key::Esc => {
            app.input = String::new();
            assert(app@.input =~= Seq::empty());
            KeyAction::Interrupt
        },
        Key::Enter => {
            let text = trim(app.input.as_str());
            app.input = String::new();
            app.scroll = 0;
            assert(app@.input =~= Seq::empty());
            if text.as_str().unicode_len() == 0 {
                return KeyAction::Nothing;
            }
            match strip_prefix(text.as_str(), "/") {
                Some(cmd) => KeyAction::Command(cmd),
                None => {
                    app.push_line(speech("你 ", Color::Cyan, text.as_str()));
                    KeyAction::Say(text)
                },
            }
        },
        Key::Backspace => {
            let v = chars_of(app.input.as_str());
            let n: usize = v.len();
            if n > 0 {
                app.input = string_of(&v, 0, n - 1);
                assert(app@.input =~= before.input.drop_last());
            }
            KeyAction::Nothing
        },
        Key::PageUp => {
            app.scroll = if app.scroll > u16::MAX - 5 {
                u16::MAX
            } else {
                app.scroll + 5
            };
            KeyAction::Nothing
        },
        Key::PageDown => {
            app.scroll = if app.scroll < 5 {
                0
            } else {
                app.scroll - 5
            };
            KeyAction::Nothing
        },
        Key::Other => KeyAction::Nothing,
    }
}

/// Lines with some more of the status colour.
pub open spec fn with_status_lines(shown: Seq<LineView>, more: Seq<Seq<char>>) -> Seq<LineView>
    decreases more.len(),
{
    if more.len() == 0 {
        shown
    } else {
        with_line(with_status_lines(shown, more.drop_last()), status_line(more.last()))
    }
}

/// What a command that nobody handles is answered.
pub open spec fn unknown_command(cmd: Seq<char>) -> Seq<char> {
    "未知命令: /"@ + (match first_word_spec(cmd) {
        Some(name) => name,
        None => cmd,
    }) + "(/help 查看)"@
}

/// Shows what a command gave, line by line; none where nobody handles it.
pub fn handle_command(app: &mut App, cmd: &str, out: Option<String>)
    ensures
        final(app)@ == (AppView {
            lines: match out {
                Some(t) => with_status_lines(old(app)@.lines, lines_spec(t@)),
                None => with_line(old(app)@.lines, status_line(unknown_command(cmd@))),
            },
            ..old(app)@
        }),
{
    let ghost before = app@;
    match out {
        Some(t) => {
            let all = lines(t.as_str());
            let ghost ls = texts(all@);
            let mut i: usize = 0;
            assert(ls.take(0).len() == 0);
            while i < all.len()
                invariant
                    i <= all@.len(),
                    ls == texts(all@),
                    app@ == (AppView { lines: app@.lines, ..before }),
                    app@.lines == with_status_lines(before.lines, ls.take(i as int)),
                decreases all@.len() - i,
            {
                assert(ls.take(i as int + 1).drop_last() =~= ls.take(i as int));
                assert(ls[i as int] == all@[i as int]@);
                app.push_status(all[i].clone());
                i += 1;
            }
            assert(ls.take(i as int) =~= ls);
        },
        None => {
            let mut m = "未知命令: /".to_string();
            match first_word(cmd) {
                Some(name) => {
                    m.append(name.as_str());
                },
                None => {
                    m.append(cmd);
                },
            }
            m.append("(/help 查看)");
            app.push_status(m);
        },
    }
}

/// Shows what the terminal is told.
pub fn apply(app: &mut App, ev: UiEvent)
    ensures
        final(app)@ == (AppView {
            lines: with_line(
                old(app)@.lines,
                match ev {
                    UiEvent::Reply(t) => speech_line("AI "@, Color::Green, t@),
                    UiEvent::Status(t) => status_line(t@),
                },
            ),
            ..old(app)@
        }),
{
    match ev {
        UiEvent::Reply(t) => app.push_line(speech("AI ", Color::Green, t.as_str())),
        UiEvent::Status(t) => app.push_status(t),
    }
}

/// How many plugins are loaded.
pub open spec fn loaded_count(v: Seq<PluginStatus>) -> nat
    decreases v.len(),
{
    if v.len() == 0 {
        0
    } else {
        loaded_count(v.drop_last()) + (if v.last().loaded {
            1nat
        } else {
            0
        })
    }
}

/// Writes the status line: how many plugins are loaded, the model in force, and
/// whether a call of it is running.
pub fn refresh_status(app: &mut App, list: &Vec<PluginStatus>, model: Option<String>, busy: bool)
    ensures
        final(app)@ == (AppView {
            status: " 插件×"@ + decimal_spec(loaded_count(list@)) + " | 模型 "@ + (match model {
                Some(m) => m@,
                None => "?"@,
            }) + (if busy {
                " | ● 调用中"@
            } else {
                ""@
            }) + " | 192.168.0.5:9870 (oMLX) | Ctrl-C 退出 "@,
            ..old(app)@
        }),
{
    let mut n: usize = 0;
    let mut i: usize = 0;
    let ghost all = list@;
    assert(all.take(0).len() == 0);
    while i < list.len()
        invariant
            i <= list@.len(),
            all == list@,
            n == loaded_count(all.take(i as int)),
            n <= i,
        decreases list@.len() - i,
    {
        assert(all.take(i as int + 1).drop_last() =~= all.take(i as int));
        if list[i].loaded {
            n += 1;
        }
        i += 1;
    }
    assert(all.take(i as int) =~= all);
    let mut m = " 插件×".to_string();
    m.append(decimal(n as u128).as_str());
    m.append(" | 模型 ");
    match model {
        Some(x) => {
            m.append(x.as_str());
        },
        None => {
            m.append("?");
        },
    }
    m.append(
        if busy {
            " | ● 调用中"
        } else {
            ""
        },
    );
    m.append(" | 192.168.0.5:9870 (oMLX) | Ctrl-C 退出 ");
    app.status = m;
}

// ---- commands ----

pub const HELP_TEXT: &'static str = "内置命令: /help /plugins /load <插件> /unload <插件> /model [模型] /clear /quit";

/// What there is to type.
pub fn help_cmd(names: &Vec<String>) -> (r: String)
    ensures
        r@ == (if names@.len() == 0 {
            HELP_TEXT@
        } else {
            HELP_TEXT@ + "\n插件命令: /"@ + join_spec(texts(names@), " /"@)
        }),
{
    let mut s = HELP_TEXT.to_string();
    if names.len() > 0 {
        s.append("\n插件命令: /");
        s.append(join(names, " /").as_str());
    }
    s
}

/// A plugin with its mark, for each.
pub open spec fn plugin_marks(v: Seq<PluginStatus>) -> Seq<char>
    decreases v.len(),
{
    if v.len() == 0 {
        Seq::empty()
    } else {
        plugin_marks(v.drop_last()) + (v.last().name@ + (if v.last().loaded {
            "✓"@
        } else {
            "✗"@
        }) + " "@)
    }
}

/// The plugins that there are, with a mark whether they are loaded.
pub fn plugins_cmd(list: &Vec<PluginStatus>) -> (r: String)
    ensures
        r@ == "插件: "@ + plugin_marks(list@),
{
    let mut s = "插件: ".to_string();
    let ghost head = s@;
    let ghost all = list@;
    let mut i: usize = 0;
    assert(all.take(0).len() == 0);
    assert(s@ =~= head + plugin_marks(all.take(0)));
    while i < list.len()
        invariant
            i <= list@.len(),
            all == list@,
            s@ == head + plugin_marks(all.take(i as int)),
        decreases list@.len() - i,
    {
        assert(all.take(i as int + 1).drop_last() =~= all.take(i as int));
        let mut m = list[i].name.clone();
        m.append(
            if list[i].loaded {
                "✓"
            } else {
                "✗"
            },
        );
        m.append(" ");
        s.append(m.as_str());
        assert(s@ =~= head + plugin_marks(all.take(i as int + 1)));
        i += 1;
    }
    assert(all.take(i as int) =~= all);
    s
}

pub const USAGE_LOAD: &'static str = "用法: /load <插件名>(/plugins 查看)";

pub const USAGE_UNLOAD: &'static str = "用法: /unload <插件名>";

/// The plugin that a command names; none where it names none.
pub fn plugin_named(args: &str) -> (r: Option<String>)
    ensures
        match r {
            Some(name) => trim_spec(args@).len() > 0 && name@ == trim_spec(args@),
            None => trim_spec(args@).len() == 0,
        },
{
    let name = trim(args);
    if name.as_str().unicode_len() == 0 {
        None
    } else {
        Some(name)
    }
}

/// What came of loading a plugin.
pub fn load_report(name: &str, result: &Result<(), LoadError>) -> (r: String)
    ensures
        r@ == (match *result {
            Ok(_) => "/load "@ + name@ + " OK"@,
            Err(e) => "/load "@ + name@ + " 失败: "@ + e.message_spec(name@),
        }),
{
    let mut m = "/load ".to_string();
    m.append(name);
    match result {
        Ok(_) => {
            m.append(" OK");
        },
        Err(e) => {
            m.append(" 失败: ");
            m.append(e.message(name).as_str());
        },
    }
    m
}

/// What came of unloading a plugin.
pub fn unload_report(name: &str, result: &Result<Vec<u64>, String>) -> (r: String)
    ensures
        r@ == (match *result {
            Ok(_) => "/unload "@ + name@ + " OK"@,
            Err(e) => "/unload "@ + name@ + " 失败: "@ + e@,
        }),
{
    let mut m = "/unload ".to_string();
    m.append(name);
    match result {
        Ok(_) => {
            m.append(" OK");
        },
        Err(e) => {
            m.append(" 失败: ");
            m.append(e.as_str());
        },
    }
    m
}

/// Shows the model in force, or chooses another.
pub fn model_cmd(client: &mut LlmClient, args: &str) -> (r: String)
    ensures
        ({
            let name = trim_spec(args@);
            if name.len() == 0 {
                r@ == "当前模型: "@ + old(client).model_spec() && final(client).model_spec() == old(
                    client,
                ).model_spec()
            } else {
                r@ == "模型已切换: "@ + name && final(client).model_spec() == name
            }
        }),
        final(client).config == old(client).config,
        final(client).permits == old(client).permits,
{
    let name = trim(args);
    if name.as_str().unicode_len() == 0 {
        let mut m = "当前模型: ".to_string();
        m.append(client.model().as_str());
        m
    } else {
        let mut m = "模型已切换: ".to_string();
        m.append(name.as_str());
        client.set_model(name);
        m
    }
}

/// Empties the screen, and says so.
pub fn clear_cmd(app: &mut App) -> (r: String)
    ensures
        r@ == "已清屏"@,
        final(app)@ == (AppView { lines: Seq::empty(), scroll: 0, ..old(app)@ }),
{
    app.clear();
    "已清屏".to_string()
}

/// What leaving says.
pub const QUIT_TEXT: &'static str = "退出";

/// Why the terminal does not start where the input is not one.
pub const NO_TERMINAL: &'static str = "stdin 不是终端(如需脚本模式,请用 --once / --micro / --list-plugins)";

// ---- the plugin ----

/// The terminal as a service.
pub struct TuiBackend;

impl Service for TuiBackend {
    open spec fn key_spec() -> u64 {
        8
    }

    open spec fn title() -> Seq<char> {
        "tui"@
    }

    fn key() -> (r: u64) {
        8
    }

    fn service_name_static() -> (r: &'static str) {
        "tui"
    }
}

impl TuiBackend {
    /// Whether the terminal may start: only where the input is a terminal.
    pub fn run(&self, is_terminal: bool) -> (r: Result<(), String>)
        ensures
            r is Ok <==> is_terminal,
            r is Err ==> r->Err_0@ == NO_TERMINAL@,
    {
        if is_terminal {
            Ok(())
        } else {
            Err(NO_TERMINAL.to_string())
        }
    }
}

pub struct TuiPlugin;

pub fn factory() -> (r: TuiPlugin)
    ensures
        r == TuiPlugin,
{
    TuiPlugin
}

/// The context with the listeners and commands of the terminal plugin.
pub open spec fn tui_registered(c: ContextView, scope: u64) -> ContextView {
    c.registered(scope, KindView::Listener(SessionReply::key_spec())).registered(
        scope,
        KindView::Listener(SessionStatus::key_spec()),
    ).registered(scope, KindView::Command("help"@)).registered(
        scope,
        KindView::Command("plugins"@),
    ).registered(scope, KindView::Command("load"@)).registered(
        scope,
        KindView::Command("unload"@),
    ).registered(scope, KindView::Command("model"@)).registered(
        scope,
        KindView::Command("clear"@),
    ).registered(scope, KindView::Command("quit"@))
}

/// The context with what the terminal plugin registers.
pub open spec fn tui_applied(c: ContextView, scope: u64) -> ContextView {
    let d = tui_registered(c, scope);
    provided_spec(
        ContextView { next: (d.next + 1) as u64, ..d },
        scope,
        ProvidedView { key: TuiBackend::key_spec(), name: TuiBackend::title(), instance: d.next },
    )
}

/// What comes of applying the plugin: the context after it, and whether it was
/// done.
pub open spec fn tui_outcome(c: ContextView, scope: u64) -> (
    ContextView,
    Result<(), Seq<char>>,
) {
    if service_at(c.services, LoaderService::key_spec()) is None {
        (c, Err("缺少 loader 服务"@))
    } else if service_at(c.services, LlmService::key_spec()) is None {
        (c, Err("缺少 llm 服务"@))
    } else {
        (tui_applied(c, scope), Ok(()))
    }
}

impl Plugin for TuiPlugin {
    type Options = ();

    open spec fn title(&self) -> Seq<char> {
        "tui"@
    }

    open spec fn needs(&self) -> Seq<Seq<char>> {
        seq!["loader"@, "llm"@]
    }

    open spec fn demand(&self) -> nat {
        10
    }

    open spec fn may_come_to(
        &self,
        before: ContextView,
        scope: u64,
        options: (),
        after: ContextView,
        r: Result<(), Seq<char>>,
    ) -> bool {
        (after, r) == tui_outcome(before, scope)
    }

    fn name(&self) -> (r: &'static str) {
        "tui"
    }

    fn inject(&self) -> (r: Vec<&'static str>) {
        let mut v: Vec<&'static str> = Vec::new();
        v.push("loader");
        v.push("llm");
        assert(names(v@) =~= seq!["loader"@, "llm"@]);
        v
    }

    /// Listens to what is to be shown, registers the commands, and provides the
    /// terminal.
    fn apply(&self, ctx: &mut Context, scope: u64, options: ()) -> (r: Result<(), String>)
    {
        let ghost before = ctx@;
        proof {
            grows_reflexive(before, scope);
        }
        if !ctx.has_service::<LoaderService>() {
            return Err("缺少 loader 服务".to_string());
        }
        if !ctx.has_service::<LlmService>() {
            return Err("缺少 llm 服务".to_string());
        }
        let ghost c0 = ctx@;
        ctx.on::<SessionReply>(scope);
        let ghost c1 = ctx@;
        ctx.on::<SessionStatus>(scope);
        let ghost c2 = ctx@;
        ctx.on_command(scope, "help");
        let ghost c3 = ctx@;
        ctx.on_command(scope, "plugins");
        let ghost c4 = ctx@;
        ctx.on_command(scope, "load");
        let ghost c5 = ctx@;
        ctx.on_command(scope, "unload");
        let ghost c6 = ctx@;
        ctx.on_command(scope, "model");
        let ghost c7 = ctx@;
        ctx.on_command(scope, "clear");
        let ghost c8 = ctx@;
        ctx.on_command(scope, "quit");
        let ghost c9 = ctx@;
        proof {
            grows_registered(before, c0, scope, KindView::Listener(SessionReply::key_spec()));
            grows_registered(before, c1, scope, KindView::Listener(SessionStatus::key_spec()));
            grows_registered(before, c2, scope, KindView::Command("help"@));
            grows_registered(before, c3, scope, KindView::Command("plugins"@));
            grows_registered(before, c4, scope, KindView::Command("load"@));
            grows_registered(before, c5, scope, KindView::Command("unload"@));
            grows_registered(before, c6, scope, KindView::Command("model"@));
            grows_registered(before, c7, scope, KindView::Command("clear"@));
            grows_registered(before, c8, scope, KindView::Command("quit"@));
            grows_counted(before, c9, scope);
        }
        let instance: u64 = ctx.next_id();
        let ghost c10 = ctx@;
        ctx.provide::<TuiBackend>(scope, instance);
        proof {
            grows_provided(
                before,
                c10,
                scope,
                ProvidedView {
                    key: TuiBackend::key_spec(),
                    name: TuiBackend::title(),
                    instance,
                },
            );
        }
        Ok(())
    }
}

}  // verus!
