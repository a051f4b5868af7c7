//! What holds of the screen: that everything is shown, what a key does, and what the
//! commands that steer the shell say.

use crate::cordis::loader::{LoadError, PluginStatus};
use crate::llm::LlmClient;
use crate::plugins::tui::{
    apply, clear_cmd, handle_command, help_cmd, load_report, loaded_count, model_cmd, on_key,
    plugin_marks, plugin_named, plugins_cmd, refresh_status, unload_report, with_status_lines, Key,
    KeyAction, TuiBackend, UiEvent, HELP_TEXT,
};
use crate::text::laws::{
    standing_is_passed_on, stripped_texts_go_with_the_rest, what_is_between_stands,
};
use crate::text::number::decimal_spec;
use crate::text::search::{contains_spec, occurs_at};
use crate::text::split::lines_spec;
use crate::text::trim::trim_spec;
use crate::text::{join_spec, texts};
use crate::tui::app::{status_line, with_line, App};
use crate::tui::style::{line_views, no_style, span_views, Color, Line, LineView, Span, Style};
use vstd::prelude::*;
use vstd::string::*;

verus! {

// ---- what is shown ----

/// Whether one line more is shown, after all that was shown before; where that would be
/// more than 4000, after the last 1999 of it.
pub open spec fn shown_more(before: App, after: App, line: LineView) -> bool {
    let all = before.lines@.len() + 1;
    let n = if all > 4000 {
        2000
    } else {
        all as int
    };
    &&& after.lines@.len() == n
    &&& forall|j: int| 0 <= j < n - 1 ==> (#[trigger] after.lines@[j])@ == before.lines@[all - n + j]@
    &&& after.lines@[n - 1]@ == line
    &&& after.status@ == before.status@
}

proof fn with_line_is_shown_more(before: App, after: App, line: LineView)
    requires
        after@.lines == with_line(before@.lines, line),
        after.status@ == before.status@,
    ensures
        shown_more(before, after, line),
{
    let h = before@.lines.push(line);
    let n = after.lines@.len() as int;
    assert(after@.lines.len() == n);
    assert(before@.lines.len() == before.lines@.len());
    assert forall|j: int| 0 <= j < n - 1 implies (#[trigger] after.lines@[j])@
        == before.lines@[h.len() - n + j]@ by {
        assert(after@.lines[j] == after.lines@[j]@);
        assert(before@.lines[h.len() - n + j] == before.lines@[h.len() - n + j]@);
    }
    assert(after@.lines[n - 1] == after.lines@[n - 1]@);
}

/// A line that is shown comes after all that was shown before, and changes nothing else;
/// so does a line of the status colour, which holds its text.
pub proof fn lines_are_shown(spans: Vec<Span>, text: String)
    ensures
        forall|a: &mut App|
            #[trigger] call_ensures(App::push_line, (a, spans), ()) ==> shown_more(
                *a,
                *final(a),
                (LineView { spans: span_views(spans@), style: no_style() }),
            ) && final(a).input@ == a.input@ && final(a).scroll == a.scroll,
        forall|a: &mut App|
            #[trigger] call_ensures(App::push_status, (a, text), ()) ==> {
                let l = final(a).lines@.last();
                &&& shown_more(*a, *final(a), status_line(text@))
                &&& l.spans@.len() == 1
                &&& l.spans@[0].content@ == text@
                &&& l.spans@[0].style.fg == Some(Color::DarkGray)
                &&& final(a).input@ == a.input@ && final(a).scroll == a.scroll
            },
{
    assert forall|a: &mut App| #[trigger] call_ensures(App::push_line, (a, spans), ()) implies shown_more(
        *a,
        *final(a),
        (LineView { spans: span_views(spans@), style: no_style() }),
    ) && final(a).input@ == a.input@ && final(a).scroll == a.scroll by {
        with_line_is_shown_more(
            *a,
            *final(a),
            LineView { spans: span_views(spans@), style: no_style() },
        );
    }
    assert forall|a: &mut App| #[trigger] call_ensures(App::push_status, (a, text), ()) implies {
        let l = final(a).lines@.last();
        &&& shown_more(*a, *final(a), status_line(text@))
        &&& l.spans@.len() == 1
        &&& l.spans@[0].content@ == text@
        &&& l.spans@[0].style.fg == Some(Color::DarkGray)
        &&& final(a).input@ == a.input@ && final(a).scroll == a.scroll
    } by {
        with_line_is_shown_more(*a, *final(a), status_line(text@));
        one_span_is_shown(final(a).lines@.last(), text@);
    }
}

proof fn one_span_is_shown(l: Line, text: Seq<char>)
    requires
        l@ == status_line(text),
    ensures
        l.spans@.len() == 1,
        l.spans@[0].content@ == text,
        l.spans@[0].style.fg == Some(Color::DarkGray),
{
    let v = span_views(l.spans@);
    assert(v == l@.spans);
    assert(v.len() == 1);
    assert(v.len() == l.spans@.len());
    assert(v[0] == l.spans@[0]@);
}

proof fn speech_is_shown(l: Line, who: Seq<char>, c: Color, text: Seq<char>)
    requires
        l@ == crate::plugins::tui::speech_line(who, c, text),
    ensures
        l.spans@.len() == 2,
        l.spans@[0].content@ == who,
        l.spans@[0].style.fg == Some(c),
        l.spans@[1].content@ == text,
{
    let v = span_views(l.spans@);
    assert(v == l@.spans);
    assert(v.len() == 2);
    assert(v.len() == l.spans@.len());
    assert(v[0] == l.spans@[0]@);
    assert(v[1] == l.spans@[1]@);
}

/// What the assistant says is shown whole, with who says it; a status is shown whole.
pub proof fn what_is_told_is_shown(text: String)
    ensures
        forall|a: &mut App|
            #[trigger] call_ensures(apply, (a, UiEvent::Reply(text)), ()) ==> {
                let l = final(a).lines@.last();
                &&& shown_more(*a, *final(a), l@)
                &&& l.spans@.len() == 2
                &&& l.spans@[0].content@ == "AI "@
                &&& l.spans@[1].content@ == text@
                &&& final(a).input@ == a.input@ && final(a).scroll == a.scroll
            },
        forall|a: &mut App|
            #[trigger] call_ensures(apply, (a, UiEvent::Status(text)), ()) ==> {
                let l = final(a).lines@.last();
                &&& shown_more(*a, *final(a), l@)
                &&& l.spans@.len() == 1
                &&& l.spans@[0].content@ == text@
                &&& final(a).input@ == a.input@ && final(a).scroll == a.scroll
            },
{
    assert forall|a: &mut App| #[trigger]
        call_ensures(apply, (a, UiEvent::Reply(text)), ()) implies {
        let l = final(a).lines@.last();
        &&& shown_more(*a, *final(a), l@)
        &&& l.spans@.len() == 2
        &&& l.spans@[0].content@ == "AI "@
        &&& l.spans@[1].content@ == text@
        &&& final(a).input@ == a.input@ && final(a).scroll == a.scroll
    } by {
        let x = crate::plugins::tui::speech_line("AI "@, Color::Green, text@);
        with_line_is_shown_more(*a, *final(a), x);
        speech_is_shown(final(a).lines@.last(), "AI "@, Color::Green, text@);
    }
    assert forall|a: &mut App| #[trigger]
        call_ensures(apply, (a, UiEvent::Status(text)), ()) implies {
        let l = final(a).lines@.last();
        &&& shown_more(*a, *final(a), l@)
        &&& l.spans@.len() == 1
        &&& l.spans@[0].content@ == text@
        &&& final(a).input@ == a.input@ && final(a).scroll == a.scroll
    } by {
        with_line_is_shown_more(*a, *final(a), status_line(text@));
        one_span_is_shown(final(a).lines@.last(), text@);
    }
}

proof fn all_lines_follow(shown: Seq<LineView>, more: Seq<Seq<char>>)
    requires
        shown.len() + more.len() <= 4000,
    ensures
        with_status_lines(shown, more) == shown + more.map_values(|t: Seq<char>| status_line(t)),
    decreases more.len(),
{
    let f = |t: Seq<char>| status_line(t);
    if more.len() > 0 {
        all_lines_follow(shown, more.drop_last());
        assert(more.map_values(f) =~= more.drop_last().map_values(f).push(status_line(more.last())));
        assert(with_status_lines(shown, more) =~= shown + more.map_values(f));
    } else {
        assert(shown + more.map_values(f) =~= shown);
    }
}

/// What a command gave is shown whole, every line of it, after all that was shown
/// before, as long as the screen holds it; a command that nobody handles is named.
pub proof fn every_line_is_shown(cmd: &str, out: String, i: int, name: Seq<char>)
    ensures
        forall|a: &mut App|
            #[trigger] call_ensures(handle_command, (a, cmd, Some(out)), ()) && a.lines@.len()
                + lines_spec(out@).len() <= 4000 ==> {
                let n = a.lines@.len() as int;
                let more = lines_spec(out@);
                &&& final(a).lines@.len() == n + more.len()
                &&& forall|j: int| 0 <= j < n ==> (#[trigger] final(a).lines@[j])@ == a.lines@[j]@
                &&& 0 <= i < more.len() ==> final(a).lines@[n + i].spans@.len() == 1 && final(a).lines@[n + i].spans@[0].content@ == more[i]
                &&& final(a).input@ == a.input@ && final(a).scroll == a.scroll
            },
        forall|a: &mut App|
            #[trigger] call_ensures(handle_command, (a, cmd, None::<String>), ()) ==> {
                let l = final(a).lines@.last();
                &&& shown_more(*a, *final(a), l@)
                &&& l.spans@.len() == 1
                &&& crate::text::split::first_word_spec(cmd@) == Some(name) ==> contains_spec(
                    l.spans@[0].content@,
                    "/"@ + name,
                )
            },
{
    assert forall|a: &mut App|
        #[trigger] call_ensures(handle_command, (a, cmd, Some(out)), ()) && a.lines@.len()
            + lines_spec(out@).len() <= 4000 implies {
        let n = a.lines@.len() as int;
        let more = lines_spec(out@);
        &&& final(a).lines@.len() == n + more.len()
        &&& forall|j: int| 0 <= j < n ==> (#[trigger] final(a).lines@[j])@ == a.lines@[j]@
        &&& 0 <= i < more.len() ==> final(a).lines@[n + i].spans@.len() == 1 && final(a).lines@[n
            + i].spans@[0].content@ == more[i]
        &&& final(a).input@ == a.input@ && final(a).scroll == a.scroll
    } by {
        let n = a.lines@.len() as int;
        let more = lines_spec(out@);
        let g = final(a)@.lines;
        assert(a@.lines.len() == n);
        all_lines_follow(a@.lines, more);
        assert(g.len() == final(a).lines@.len());
        assert forall|j: int| 0 <= j < n implies (#[trigger] final(a).lines@[j])@ == a.lines@[j]@ by {
            assert(g[j] == final(a).lines@[j]@);
            assert(a@.lines[j] == a.lines@[j]@);
        }
        if 0 <= i < more.len() {
            assert(g[n + i] == final(a).lines@[n + i]@);
            one_span_is_shown(final(a).lines@[n + i], more[i]);
        }
    }
    assert forall|a: &mut App| #[trigger]
        call_ensures(handle_command, (a, cmd, None::<String>), ()) implies {
        let l = final(a).lines@.last();
        &&& shown_more(*a, *final(a), l@)
        &&& l.spans@.len() == 1
        &&& crate::text::split::first_word_spec(cmd@) == Some(name) ==> contains_spec(
            l.spans@[0].content@,
            "/"@ + name,
        )
    } by {
        let t = crate::plugins::tui::unknown_command(cmd@);
        with_line_is_shown_more(*a, *final(a), status_line(t));
        one_span_is_shown(final(a).lines@.last(), t);
        if crate::text::split::first_word_spec(cmd@) == Some(name) {
            reveal_strlit("/");
            reveal_strlit("未知命令: /");
            let x = "/"@ + name;
            let k = "未知命令: /"@.len() - 1;
            assert(t.subrange(k, k + x.len()) =~= x);
            assert(occurs_at(t, x, k));
        }
    }
}

/// What is drawn are the last lines, as many as the panel holds and as the view stands
/// above the end.
pub proof fn the_last_lines_are_drawn(a: App, height: u16, r: Vec<Line>, j: int)
    requires
        call_ensures(App::draw, (&a, height), r),
    ensures
        ({
            let room = if height > 3 {
                height - 2
            } else {
                1
            };
            let n = a.lines@.len() as int;
            &&& r@.len() == if n < a.scroll + room {
                n
            } else {
                a.scroll + room
            }
            &&& 0 <= j < r@.len() ==> r@[j]@ == a.lines@[n - r@.len() + j]@
        }),
{
    let v = line_views(r@);
    assert(v.len() == r@.len());
    assert(a@.lines.len() == a.lines@.len());
    if 0 <= j < r@.len() {
        assert(v[j] == r@[j]@);
        assert(a@.lines[a.lines@.len() - r@.len() + j] == a.lines@[a.lines@.len() - r@.len() + j]@);
    }
}

/// A screen begins empty, and is empty after it was emptied; what is being typed stays.
pub proof fn an_empty_screen_shows_nothing(a: App, r: String)
    requires
        call_ensures(App::new, (), a),
    ensures
        a.lines@.len() == 0 && a.input@.len() == 0 && a.scroll == 0 && a.status@.len() == 0,
        forall|b: &mut App|
            #[trigger] call_ensures(clear_cmd, (b,), r) ==> final(b).lines@.len() == 0 && final(b).scroll == 0 && final(b).input@ == b.input@ && final(b).status@ == b.status@,
        forall|b: &mut App|
            #[trigger] call_ensures(App::clear, (b,), ()) ==> final(b).lines@.len() == 0 && final(b).scroll == 0 && final(b).input@ == b.input@ && final(b).status@ == b.status@,
{
    assert(a@.lines.len() == a.lines@.len());
    assert forall|b: &mut App| #[trigger] call_ensures(clear_cmd, (b,), r) implies final(b).lines@.len()
        == 0 && final(b).scroll == 0 && final(b).input@ == b.input@ && final(b).status@ == b.status@ by {
        assert(final(b)@.lines.len() == final(b).lines@.len());
    }
    assert forall|b: &mut App| #[trigger] call_ensures(App::clear, (b,), ()) implies final(b).lines@.len()
        == 0 && final(b).scroll == 0 && final(b).input@ == b.input@ && final(b).status@ == b.status@ by {
        assert(final(b)@.lines.len() == final(b).lines@.len());
    }
}

// ---- keys ----

/// A character that is typed stands at the end of what was typed before, and the last
/// one is taken back again; control and `c` leaves; the escape key drops what was typed
/// and interrupts. Nothing that is shown changes.
pub proof fn keys_are_typed(c: char, k: bool, r: KeyAction)
    ensures
        forall|a: &mut App|
            #[trigger] call_ensures(on_key, (a, Key::Char(c, k)), r) ==> {
                &&& k && c == 'c' ==> r is Quit && final(a)@ == a@
                &&& !(k && c == 'c') ==> r is Nothing && final(a).input@ == a.input@.push(c)
                &&& final(a)@.lines == a@.lines && final(a).scroll == a.scroll
            },
        forall|a: &mut App|
            #[trigger] call_ensures(on_key, (a, Key::Backspace), r) ==> {
                &&& r is Nothing
                &&& a.input@.len() > 0 ==> final(a).input@ == a.input@.take(a.input@.len() - 1)
                &&& a.input@.len() == 0 ==> final(a).input@.len() == 0
                &&& final(a)@.lines == a@.lines && final(a).scroll == a.scroll
            },
        forall|a: &mut App|
            #[trigger] call_ensures(on_key, (a, Key::Esc), r) ==> {
                &&& r is Interrupt
                &&& final(a).input@.len() == 0
                &&& final(a)@.lines == a@.lines && final(a).scroll == a.scroll
            },
        forall|a: &mut App|
            #[trigger] call_ensures(on_key, (a, Key::Other), r) ==> r is Nothing && final(a)@ == a@,
{
    assert forall|a: &mut App| #[trigger] call_ensures(on_key, (a, Key::Backspace), r) implies {
        &&& r is Nothing
        &&& a.input@.len() > 0 ==> final(a).input@ == a.input@.take(a.input@.len() - 1)
        &&& a.input@.len() == 0 ==> final(a).input@.len() == 0
        &&& final(a)@.lines == a@.lines && final(a).scroll == a.scroll
    } by {
        if a.input@.len() > 0 {
            assert(a.input@.drop_last() =~= a.input@.take(a.input@.len() - 1));
        }
    }
}

/// The view moves by five lines, up and down again, and not beyond the end.
pub proof fn pages_are_turned(r: KeyAction)
    ensures
        forall|a: &mut App|
            #[trigger] call_ensures(on_key, (a, Key::PageUp), r) ==> {
                &&& r is Nothing
                &&& a.scroll <= u16::MAX - 5 ==> final(a).scroll == a.scroll + 5
                &&& a.scroll > u16::MAX - 5 ==> final(a).scroll == u16::MAX
                &&& final(a)@.lines == a@.lines && final(a).input@ == a.input@
            },
        forall|a: &mut App|
            #[trigger] call_ensures(on_key, (a, Key::PageDown), r) ==> {
                &&& r is Nothing
                &&& a.scroll >= 5 ==> final(a).scroll == a.scroll - 5
                &&& a.scroll < 5 ==> final(a).scroll == 0
                &&& final(a)@.lines == a@.lines && final(a).input@ == a.input@
            },
{
}

/// What was typed is sent, without the white space around it: said, and shown as the
/// user's, or run as a command where it begins with a slash. Nothing is sent where
/// nothing was typed. The line is empty again, and the view stands at the end.
pub proof fn what_was_typed_is_sent(r: KeyAction, cmd: Seq<char>)
    ensures
        forall|a: &mut App|
            #[trigger] call_ensures(on_key, (a, Key::Enter), r) ==> {
                let text = trim_spec(a.input@);
                &&& final(a).input@.len() == 0
                &&& final(a).scroll == 0
                &&& text.len() == 0 ==> r is Nothing && final(a)@.lines == a@.lines
                &&& text == seq!['/'] + cmd ==> r is Command && r->Command_0@ == cmd && final(a)@.lines == a@.lines
                &&& text.len() > 0 && text[0] != '/' ==> {
                    let l = final(a).lines@.last();
                    &&& r is Say && r->Say_0@ == text
                    &&& shown_more(*a, *final(a), l@)
                    &&& l.spans@.len() == 2
                    &&& l.spans@[0].content@ == "你 "@
                    &&& l.spans@[1].content@ == text
                }
            },
{
    assert forall|a: &mut App| #[trigger] call_ensures(on_key, (a, Key::Enter), r) implies {
        let text = trim_spec(a.input@);
        &&& final(a).input@.len() == 0
        &&& final(a).scroll == 0
        &&& text.len() == 0 ==> r is Nothing && final(a)@.lines == a@.lines
        &&& text == seq!['/'] + cmd ==> r is Command && r->Command_0@ == cmd && final(a)@.lines
            == a@.lines
        &&& text.len() > 0 && text[0] != '/' ==> {
            let l = final(a).lines@.last();
            &&& r is Say && r->Say_0@ == text
            &&& shown_more(*a, *final(a), l@)
            &&& l.spans@.len() == 2
            &&& l.spans@[0].content@ == "你 "@
            &&& l.spans@[1].content@ == text
        }
    } by {
        let text = trim_spec(a.input@);
        let slash = "/"@;
        reveal_strlit("/");
        assert(slash =~= seq!['/']);
        stripped_texts_go_with_the_rest(text, slash);
        if text == seq!['/'] + cmd {
            stripped_texts_go_with_the_rest(cmd, slash);
        }
        if text.len() > 0 && text[0] != '/' {
            if slash.is_prefix_of(text) {
                assert(slash[0] == text[0]);
            }
            let x = crate::plugins::tui::speech_line("你 "@, Color::Cyan, text);
            with_line_is_shown_more(*a, *final(a), x);
            speech_is_shown(final(a).lines@.last(), "你 "@, Color::Cyan, text);
        }
    }
}

// ---- the status line ----

proof fn loaded_are_counted(v: Seq<PluginStatus>)
    ensures
        loaded_count(v) == v.filter(|p: PluginStatus| p.loaded).len(),
    decreases v.len(),
{
    reveal(Seq::filter);
    let f = |p: PluginStatus| p.loaded;
    if v.len() > 0 {
        loaded_are_counted(v.drop_last());
        assert(f(v.last()) == v.last().loaded);
    }
}

/// The status line tells how many plugins are loaded, which model is in force, and
/// whether a call is running.
pub proof fn the_status_line_tells(list: Vec<PluginStatus>, model: String, busy: bool)
    ensures
        forall|a: &mut App|
            #[trigger] call_ensures(refresh_status, (a, &list, Some(model), busy), ()) ==> {
                let n = list@.filter(|p: PluginStatus| p.loaded).len();
                &&& (" 插件×"@ + decimal_spec(n) + " | 模型 "@ + model@).is_prefix_of(final(a).status@)
                &&& busy ==> contains_spec(final(a).status@, " | ● 调用中"@)
                &&& final(a)@.lines == a@.lines && final(a).input@ == a.input@ && final(a).scroll
                    == a.scroll
            },
{
    assert forall|a: &mut App| #[trigger]
        call_ensures(refresh_status, (a, &list, Some(model), busy), ()) implies {
        let n = list@.filter(|p: PluginStatus| p.loaded).len();
        &&& (" 插件×"@ + decimal_spec(n) + " | 模型 "@ + model@).is_prefix_of(final(a).status@)
        &&& busy ==> contains_spec(final(a).status@, " | ● 调用中"@)
        &&& final(a)@.lines == a@.lines && final(a).input@ == a.input@ && final(a).scroll == a.scroll
    } by {
        loaded_are_counted(list@);
        let n = list@.filter(|p: PluginStatus| p.loaded).len();
        let head = " 插件×"@ + decimal_spec(n) + " | 模型 "@ + model@;
        assert(head =~= final(a).status@.subrange(0, head.len() as int));
        if busy {
            what_is_between_stands(
                head,
                " | ● 调用中"@,
                " | 192.168.0.5:9870 (oMLX) | Ctrl-C 退出 "@,
            );
        }
    }
}

// ---- commands ----

/// The help names every command.
pub proof fn every_command_is_named(names: Vec<String>, r: String, i: int)
    requires
        call_ensures(help_cmd, (&names,), r),
    ensures
        HELP_TEXT@.is_prefix_of(r@),
        0 <= i < names@.len() ==> contains_spec(r@, "/"@ + names@[i]@),
{
    assert(HELP_TEXT@ =~= r@.subrange(0, HELP_TEXT@.len() as int));
    if 0 <= i < names@.len() {
        let v = texts(names@);
        assert(v[i] == names@[i]@);
        slashed_names_stand(v, i);
        let list = "/"@ + join_spec(v, " /"@);
        reveal_strlit("/");
        reveal_strlit("\n插件命令: /");
        let k = HELP_TEXT@.len() + "\n插件命令: /"@.len() - 1;
        assert(r@.subrange(k, k + list.len()) =~= list);
        assert(occurs_at(r@, list, k));
        standing_is_passed_on(r@, list, "/"@ + names@[i]@);
    }
}

proof fn slashed_names_stand(v: Seq<Seq<char>>, i: int)
    requires
        0 <= i < v.len(),
    ensures
        contains_spec("/"@ + join_spec(v, " /"@), "/"@ + v[i]),
    decreases v.len(),
{
    reveal_strlit("/");
    reveal_strlit(" /");
    let all = "/"@ + join_spec(v, " /"@);
    let x = "/"@ + v[i];
    if i == v.len() - 1 {
        let k = all.len() - x.len();
        assert(all.subrange(k, k + x.len()) =~= x);
        assert(occurs_at(all, x, k));
    } else {
        let d = v.drop_last();
        slashed_names_stand(d, i);
        let before = "/"@ + join_spec(d, " /"@);
        let j = choose|j: int| occurs_at(before, x, j);
        assert(all.subrange(j, j + x.len()) =~= before.subrange(j, j + x.len()));
        assert(occurs_at(all, x, j));
    }
}

proof fn mark_stands(v: Seq<PluginStatus>, i: int)
    requires
        0 <= i < v.len(),
    ensures
        contains_spec(
            plugin_marks(v),
            v[i].name@ + (if v[i].loaded {
                "✓"@
            } else {
                "✗"@
            }) + " "@,
        ),
    decreases v.len(),
{
    let all = plugin_marks(v);
    let x = v[i].name@ + (if v[i].loaded {
        "✓"@
    } else {
        "✗"@
    }) + " "@;
    if i == v.len() - 1 {
        let k = all.len() - x.len();
        assert(all.subrange(k, k + x.len()) =~= x);
        assert(occurs_at(all, x, k));
    } else {
        let before = plugin_marks(v.drop_last());
        mark_stands(v.drop_last(), i);
        let j = choose|j: int| occurs_at(before, x, j);
        assert(all.subrange(j, j + x.len()) =~= before.subrange(j, j + x.len()));
        assert(occurs_at(all, x, j));
    }
}

/// Every plugin is listed, with a mark whether it is loaded.
pub proof fn every_plugin_is_listed(list: Vec<PluginStatus>, r: String, i: int)
    requires
        call_ensures(plugins_cmd, (&list,), r),
    ensures
        0 <= i < list@.len() ==> contains_spec(
            r@,
            list@[i].name@ + (if list@[i].loaded {
                "✓"@
            } else {
                "✗"@
            }) + " "@,
        ),
{
    if 0 <= i < list@.len() {
        mark_stands(list@, i);
        let m = plugin_marks(list@);
        let none = Seq::<char>::empty();
        what_is_between_stands("插件: "@, m, none);
        assert("插件: "@ + m + none =~= r@);
        standing_is_passed_on(
            r@,
            m,
            list@[i].name@ + (if list@[i].loaded {
                "✓"@
            } else {
                "✗"@
            }) + " "@,
        );
    }
}

/// The plugin that is named is the one on the line; what came of loading or unloading it
/// is said with its name, and a failure with its reason.
pub proof fn plugins_are_named(
    args: &str,
    named: Option<String>,
    name: &str,
    e: LoadError,
    why: String,
    ids: Vec<u64>,
    a: String,
    b: String,
    c: String,
    d: String,
    message: String,
)
    requires
        call_ensures(plugin_named, (args,), named),
        call_ensures(load_report, (name, &Ok(())), a),
        call_ensures(load_report, (name, &Err(e)), b),
        call_ensures(unload_report, (name, &Ok(ids)), c),
        call_ensures(unload_report, (name, &Err(why)), d),
        call_ensures(LoadError::message, (&e, name), message),
    ensures
        named is Some <==> trim_spec(args@).len() > 0,
        named is Some ==> named->0@ == trim_spec(args@),
        a@ == "/load "@ + name@ + " OK"@,
        ("/load "@ + name@ + " "@).is_prefix_of(b@) && message@.is_suffix_of(b@),
        c@ == "/unload "@ + name@ + " OK"@,
        ("/unload "@ + name@ + " "@).is_prefix_of(d@) && why@.is_suffix_of(d@),
{
    reveal_strlit(" ");
    reveal_strlit(" 失败: ");
    let x = "/load "@ + name@ + " "@;
    assert(x =~= b@.subrange(0, x.len() as int));
    let m = message@;
    assert(m =~= b@.subrange(b@.len() - m.len(), b@.len() as int));
    let y = "/unload "@ + name@ + " "@;
    assert(y =~= d@.subrange(0, y.len() as int));
    assert(why@ =~= d@.subrange(d@.len() - why@.len(), d@.len() as int));
}

/// The model in force is shown, or the one that is named is put into force, for every
/// call from then on.
pub proof fn models_are_chosen_by_name(args: &str, r: String, m: String)
    ensures
        forall|c: &mut LlmClient|
            #[trigger] call_ensures(model_cmd, (c, args), r) ==> {
                let name = trim_spec(args@);
                &&& name.len() == 0 ==> r@ == "当前模型: "@ + c.model_spec() && final(c).model_spec()
                    == c.model_spec()
                &&& name.len() > 0 ==> name.is_suffix_of(r@) && (call_ensures(
                    LlmClient::model,
                    (&*final(c),),
                    m,
                ) ==> m@ == name)
                &&& final(c).config == c.config
            },
{
    assert forall|c: &mut LlmClient| #[trigger] call_ensures(model_cmd, (c, args), r) implies {
        let name = trim_spec(args@);
        &&& name.len() == 0 ==> r@ == "当前模型: "@ + c.model_spec() && final(c).model_spec()
            == c.model_spec()
        &&& name.len() > 0 ==> name.is_suffix_of(r@) && (call_ensures(
            LlmClient::model,
            (&*final(c),),
            m,
        ) ==> m@ == name)
        &&& final(c).config == c.config
    } by {
        let name = trim_spec(args@);
        if name.len() > 0 {
            let t = r@;
            assert(name =~= t.subrange(t.len() - name.len(), t.len() as int));
        }
    }
}

/// The shell starts in a terminal, and nowhere else.
pub proof fn the_shell_needs_a_terminal(b: TuiBackend, yes: Result<(), String>, no: Result<(), String>)
    requires
        call_ensures(TuiBackend::run, (&b, true), yes),
        call_ensures(TuiBackend::run, (&b, false), no),
    ensures
        yes is Ok,
        no is Err,
{
}

// ---- styles ----

/// A style that is laid over another gives its colour, where it has one, and adds what
/// it sets; nothing that was set is lost.
pub proof fn styles_are_laid_over(base: Style, over: Style, r: Style)
    requires
        call_ensures(Style::patch, (base, over), r),
    ensures
        over.fg is Some ==> r.fg == over.fg,
        over.fg is None ==> r.fg == base.fg,
        r.bold <==> base.bold || over.bold,
        r.italic <==> base.italic || over.italic,
        r.underlined <==> base.underlined || over.underlined,
{
}

/// A span holds the text and the style that it was made with.
pub proof fn spans_hold_their_text(content: String, style: Style, c: Color, r: Span, s: Style)
    requires
        call_ensures(Span::styled, (content, style), r),
        call_ensures(Style::color, (c,), s),
    ensures
        r.content@ == content@,
        r.style == style,
        s.fg == Some(c),
        !s.bold && !s.italic && !s.underlined,
{
}

}  // verus!
