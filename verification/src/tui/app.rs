//! What is on the screen: the lines that were shown, the line that is being
//! typed, and the status line.

use crate::tui::style::{
    colored, line_views, no_style, span_views, Color, Line, LineView, Span, SpanView, Style,
};
use vstd::prelude::*;

verus! {

pub const MESSAGES_TITLE: &'static str = " localai · cordis 模式 · 小上下文·频繁微调用 ";

pub const INPUT_TITLE: &'static str = " 输入(Enter 发送;/ 命令;↑↓ 历史;Esc 清空/中断;PgUp/Dn 翻页) ";

pub struct App {
    pub lines: Vec<Line>,
    pub input: String,
    /// How many lines the view stands above the end.
    pub scroll: u16,
    pub status: String,
}

#[verifier::ext_equal]
pub struct AppView {
    pub lines: Seq<LineView>,
    pub input: Seq<char>,
    pub scroll: u16,
    pub status: Seq<char>,
}

impl View for App {
    type V = AppView;

    open spec fn view(&self) -> AppView {
        AppView {
            lines: line_views(self.lines@),
            input: self.input@,
            scroll: self.scroll,
            status: self.status@,
        }
    }
}

/// Lines with one more; of more than 4000 the last 2000 are kept.
pub open spec fn with_line(lines: Seq<LineView>, l: LineView) -> Seq<LineView> {
    let all = lines.push(l);
    if all.len() > 4000 {
        all.skip(all.len() - 2000)
    } else {
        all
    }
}

/// A line of the status colour.
pub open spec fn status_line(text: Seq<char>) -> LineView {
    LineView {
        spans: seq![SpanView { content: text, style: colored(Color::DarkGray) }],
        style: no_style(),
    }
}

/// Where the view begins, in a panel of a height with a border.
pub open spec fn window_start(total: nat, scroll: u16, height: u16) -> int {
    let room = if height > 3 {
        height - 2
    } else {
        1
    };
    let end = if total > scroll {
        total - scroll
    } else {
        0
    };
    if end > room {
        end - room
    } else {
        0
    }
}

impl Default for App {
    fn default() -> (r: App)
        ensures
            r@ == (AppView {
                lines: Seq::empty(),
                input: Seq::empty(),
                scroll: 0,
                status: Seq::empty(),
            }),
    {
        App::new()
    }
}

impl App {
    pub fn new() -> (r: App)
        ensures
            r@ == (AppView {
                lines: Seq::empty(),
                input: Seq::empty(),
                scroll: 0,
                status: Seq::empty(),
            }),
    {
        let r = App {
            lines: Vec::new(),
            input: String::new(),
            scroll: 0,
            status: String::new(),
        };
        assert(r@.lines =~= Seq::empty());
        assert(r@.input =~= Seq::empty());
        assert(r@.status =~= Seq::empty());
        r
    }

    /// Shows one more line.
    pub fn push_line(&mut self, spans: Vec<Span>)
        ensures
            final(self)@ == (AppView {
                lines: with_line(old(self)@.lines, LineView { spans: span_views(spans@), style: no_style() }),
                ..old(self)@
            }),
    {
        let ghost before = self@;
        let line = Line::of(spans);
        let ghost l = line@;
        self.lines.push(line);
        assert(line_views(self.lines@) =~= before.lines.push(l));
        if self.lines.len() > 4000 {
            let ghost all = line_views(self.lines@);
            let from: usize = self.lines.len() - 2000;
            let n: usize = self.lines.len();
            let mut out: Vec<Line> = Vec::new();
            let mut i: usize = from;
            while i < n
                invariant
                    from <= i <= n,
                    n == self.lines@.len(),
                    all == line_views(self.lines@),
                    out@.len() == i - from,
                    forall|k: int| 0 <= k < out@.len() ==> (#[trigger] out@[k])@ == all[from + k],
                decreases n - i,
            {
                assert(all[i as int] == self.lines@[i as int]@);
                out.push(self.lines[i].copy());
                i += 1;
            }
            self.lines = out;
            assert(line_views(self.lines@) =~= all.skip(from as int));
        }
    }

    /// Shows one more line, of the status colour.
    pub fn push_status(&mut self, text: String)
        ensures
            final(self)@ == (AppView {
                lines: with_line(old(self)@.lines, status_line(text@)),
                ..old(self)@
            }),
    {
        let mut spans: Vec<Span> = Vec::new();
        spans.push(Span::styled(text, Style::color(Color::DarkGray)));
        assert(span_views(spans@) =~= status_line(text@).spans);
        self.push_line(spans);
    }

    /// Empties the screen.
    pub fn clear(&mut self)
        ensures
            final(self)@ == (AppView { lines: Seq::empty(), scroll: 0, ..old(self)@ }),
    {
        self.lines = Vec::new();
        self.scroll = 0;
        assert(line_views(self.lines@) =~= Seq::empty());
    }

    /// The lines that are drawn in a panel of a height: from where the view
    /// begins.
    pub fn draw(&self, height: u16) -> (r: Vec<Line>)
        ensures
            line_views(r@) == self@.lines.skip(
                window_start(self@.lines.len(), self.scroll, height),
            ),
    {
        let n: usize = self.lines.len();
        let scroll: usize = self.scroll as usize;
        let room: usize = if height > 3 {
            (height - 2) as usize
        } else {
            1
        };
        let end: usize = if n > scroll {
            n - scroll
        } else {
            0
        };
        let start: usize = if end > room {
            end - room
        } else {
            0
        };
        let ghost all = line_views(self.lines@);
        let mut out: Vec<Line> = Vec::new();
        let mut i: usize = start;
        while i < n
            invariant
                start <= i <= n,
                n == self.lines@.len(),
                all == line_views(self.lines@),
                out@.len() == i - start,
                forall|k: int| 0 <= k < out@.len() ==> (#[trigger] out@[k])@ == all[start + k],
            decreases n - i,
        {
            assert(all[i as int] == self.lines@[i as int]@);
            out.push(self.lines[i].copy());
            i += 1;
        }
        assert(line_views(out@) =~= all.skip(start as int));
        out
    }
}

/// The screen never holds more than 4000 lines, and its end is what was shown
/// last.
pub proof fn screen_is_bounded(lines: Seq<LineView>, l: LineView)
    requires
        lines.len() <= 4000,
    ensures
        with_line(lines, l).len() <= 4000,
        with_line(lines, l).last() == l,
        with_line(lines, l).is_suffix_of(lines.push(l)),
{
    let all = lines.push(l);
    let out = with_line(lines, l);
    assert(out =~= all.subrange(all.len() - out.len(), all.len() as int));
}

/// Without scrolling, the view reaches the last line.
pub proof fn view_reaches_the_end(total: nat, height: u16)
    requires
        total > 0,
    ensures
        0 <= window_start(total, 0, height) < total,
        total - window_start(total, 0, height) <= (if height > 3 {
            height - 2
        } else {
            1
        }),
{
}

}  // verus!
