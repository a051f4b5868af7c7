//! What holds of Markdown that is shown: that no text is lost, and that each mark gives
//! its style.

use crate::text::number::is_digit;
use crate::text::search::occurs_at;
use crate::text::laws::stripped_texts_go_with_the_rest;
use crate::text::split::split_spec;
use crate::text::trim::{is_white, trim_bounds, trim_end_spec, trim_spec, trim_start_spec};
use crate::tui::markdown::{
    can_render, code_is_kept, code_on, code_style, digits_len, fence_line, hashes, header_mark,
    header_spec, inline_spans, inline_spec, is_fence, is_rule, lines_shown, one_line_for_each,
    plain_spans, prose_line, render, rules_are_no_items, span_at, tail_backslashes, times,
    unescaped,
};
use crate::tui::style::{line_views, span_views, Color, Line, Span, SpanView, Style};
use vstd::prelude::*;
use vstd::string::*;

verus! {

// ---- spans ----

/// Whether a character stands for itself.
pub open spec fn ordinary(c: char) -> bool {
    c != '\\' && c != '*' && c != '_' && c != '`' && c != '['
}

/// Whether a text stands for itself, character by character.
pub open spec fn ordinary_text(s: Seq<char>) -> bool {
    forall|k: int| 0 <= k < s.len() ==> ordinary(#[trigger] s[k])
}

proof fn closing_is_found(x: Seq<char>, delim: Seq<char>, rest: Seq<char>, s: Seq<char>, i: int)
    requires
        delim.len() > 0,
        delim[0] != '\\',
        !x.contains(delim[0]),
        !x.contains('\\'),
        s == x + delim + rest,
        0 <= i <= x.len(),
    ensures
        unescaped(s, delim, i) == Some(x.len() as int),
    decreases x.len() - i,
{
    if i < x.len() {
        assert(s[i] == x[i]);
        if occurs_at(s, delim, i) {
            assert(s.subrange(i, i + delim.len())[0] == delim[0]);
        }
        closing_is_found(x, delim, rest, s, i + 1);
    } else {
        assert(s[i] == delim[0]);
        assert(s.subrange(i, i + delim.len()) =~= delim);
    }
}

proof fn ordinary_text_goes_on(p: Seq<char>, s: Seq<char>, plain: Seq<char>)
    requires
        ordinary_text(p),
    ensures
        inline_spec(p + s, plain) == inline_spec(s, plain + p),
    decreases p.len(),
{
    if p.len() > 0 {
        let all = p + s;
        let d = p.drop_first();
        assert(ordinary(p[0]));
        assert(all[0] == p[0]);
        assert(all.skip(1) =~= d + s);
        assert forall|k: int| 0 <= k < d.len() implies ordinary(#[trigger] d[k]) by {
            assert(d[k] == p[k + 1]);
        }
        ordinary_text_goes_on(d, s, plain.push(p[0]));
        assert(plain.push(p[0]) + d =~= plain + p);
    } else {
        assert(p + s =~= s);
        assert(plain + p =~= plain);
    }
}

proof fn ordinary_text_is_plain(q: Seq<char>)
    requires
        ordinary_text(q),
    ensures
        inline_spec(q, Seq::empty()) == plain_spans(q),
{
    let none = Seq::<char>::empty();
    ordinary_text_goes_on(q, none, none);
    assert(q + none =~= q);
    assert(none + q =~= q);
}

/// Whether spans are a text between two others: what stands before it, unstyled and only
/// where anything does; the text in its style; and what stands after it, in the same
/// way.
pub open spec fn styled_between(spans: Seq<Span>, p: Seq<char>, w: Seq<char>, style: Style, q: Seq<char>) -> bool {
    let a = if p.len() > 0 {
        1int
    } else {
        0
    };
    let b = if q.len() > 0 {
        1int
    } else {
        0
    };
    &&& spans.len() == a + 1 + b
    &&& spans[a].content@ == w
    &&& spans[a].style == style
    &&& p.len() > 0 ==> spans[0].content@ == p && spans[0].style == (Style {
        fg: None,
        bold: false,
        italic: false,
        underlined: false,
    })
    &&& q.len() > 0 ==> spans[a + 1].content@ == q && spans[a + 1].style == (Style {
        fg: None,
        bold: false,
        italic: false,
        underlined: false,
    })
}

proof fn span_stands_between(
    text: Seq<char>,
    p: Seq<char>,
    marked: Seq<char>,
    w: Seq<char>,
    style: Style,
    q: Seq<char>,
    spans: Seq<Span>,
)
    requires
        ordinary_text(p),
        ordinary_text(q),
        text == p + marked + q,
        marked.len() > 0,
        marked[0] != '\\',
        span_at(marked + q) == Some((SpanView { content: w, style }, marked.len() as int)),
        span_views(spans) == inline_spec(text, Seq::empty()),
    ensures
        styled_between(spans, p, w, style, q),
{
    let none = Seq::<char>::empty();
    let s = marked + q;
    assert(text =~= p + s);
    ordinary_text_goes_on(p, s, none);
    assert(none + p =~= p);
    assert(s[0] == marked[0]);
    assert(s.skip(marked.len() as int) =~= q);
    ordinary_text_is_plain(q);
    let span = SpanView { content: w, style };
    let v = span_views(spans);
    assert(v == plain_spans(p) + seq![span] + plain_spans(q));
    assert(v.len() == spans.len());
    let a = if p.len() > 0 {
        1int
    } else {
        0
    };
    assert(v[a] == spans[a]@);
    if p.len() > 0 {
        assert(v[0] == spans[0]@);
    }
    if q.len() > 0 {
        assert(v[a + 1] == spans[a + 1]@);
    }
}

/// A text between double stars is shown bold, without the stars; what stands around it
/// is shown as it is.
pub proof fn double_stars_make_bold(text: &str, p: Seq<char>, w: Seq<char>, q: Seq<char>, r: Vec<Span>)
    requires
        call_ensures(inline_spans, (text,), r),
        text@ == p + (seq!['*', '*'] + w + seq!['*', '*']) + q,
        ordinary_text(p),
        ordinary_text(q),
        !w.contains('*'),
        !w.contains('\\'),
    ensures
        styled_between(
            r@,
            p,
            w,
            (Style { fg: None, bold: true, italic: false, underlined: false }),
            q,
        ),
{
    let marked = seq!['*', '*'] + w + seq!['*', '*'];
    let s = marked + q;
    let d = seq!['*', '*'];
    assert(s.skip(2) =~= w + d + q);
    closing_is_found(w, d, q, w + d + q, 0);
    assert(d =~= s.subrange(0, 2));
    assert(s.subrange(2, 2 + w.len() as int) =~= w);
    span_stands_between(
        text@,
        p,
        marked,
        w,
        Style { fg: None, bold: true, italic: false, underlined: false },
        q,
        r@,
    );
}

/// A text between single stars, or between underscores, is shown italic, without them.
pub proof fn single_marks_make_italic(text: &str, m: char, p: Seq<char>, w: Seq<char>, q: Seq<char>, r: Vec<Span>)
    requires
        call_ensures(inline_spans, (text,), r),
        m == '*' || m == '_',
        text@ == p + (seq![m] + w + seq![m]) + q,
        ordinary_text(p),
        ordinary_text(q),
        w.len() > 0,
        !w.contains(m),
        !w.contains('\\'),
    ensures
        styled_between(
            r@,
            p,
            w,
            (Style { fg: None, bold: false, italic: true, underlined: false }),
            q,
        ),
{
    let marked = seq![m] + w + seq![m];
    let s = marked + q;
    let d = seq![m];
    assert(s.skip(1) =~= w + d + q);
    closing_is_found(w, d, q, w + d + q, 0);
    assert(s[0] == m);
    assert(s[1] == w[0]);
    if seq!['*', '*'].is_prefix_of(s) {
        assert(s.subrange(0, 2)[1] == '*');
        assert(w.contains(w[0]));
    }
    assert(s.subrange(1, 1 + w.len() as int) =~= w);
    span_stands_between(
        text@,
        p,
        marked,
        w,
        Style { fg: None, bold: false, italic: true, underlined: false },
        q,
        r@,
    );
}

/// A text between backticks is shown as code, whatever other marks it holds, without
/// the backticks.
pub proof fn backticks_make_code(text: &str, p: Seq<char>, w: Seq<char>, q: Seq<char>, r: Vec<Span>)
    requires
        call_ensures(inline_spans, (text,), r),
        text@ == p + (seq!['`'] + w + seq!['`']) + q,
        ordinary_text(p),
        ordinary_text(q),
        !w.contains('`'),
        !w.contains('\\'),
    ensures
        styled_between(
            r@,
            p,
            w,
            (Style {
                fg: Some(Color::Rgb(0xE6, 0xDB, 0x74)),
                bold: false,
                italic: false,
                underlined: false,
            }),
            q,
        ),
{
    let marked = seq!['`'] + w + seq!['`'];
    let s = marked + q;
    let d = seq!['`'];
    assert(s.skip(1) =~= w + d + q);
    closing_is_found(w, d, q, w + d + q, 0);
    assert(s[0] == '`');
    if seq!['*', '*'].is_prefix_of(s) {
        assert(s.subrange(0, 2)[0] == '*');
    }
    assert(s.subrange(1, 1 + w.len() as int) =~= w);
    span_stands_between(text@, p, marked, w, code_style(), q, r@);
}

/// Of a link the label is shown, underlined, without its address.
pub proof fn links_show_their_label(text: &str, p: Seq<char>, label: Seq<char>, url: Seq<char>, q: Seq<char>, r: Vec<Span>)
    requires
        call_ensures(inline_spans, (text,), r),
        text@ == p + (seq!['['] + label + seq![']', '('] + url + seq![')']) + q,
        ordinary_text(p),
        ordinary_text(q),
        !label.contains(']'),
        !label.contains('\\'),
        !url.contains(')'),
        !url.contains('\\'),
    ensures
        styled_between(
            r@,
            p,
            label,
            (Style { fg: Some(Color::Cyan), bold: false, italic: false, underlined: true }),
            q,
        ),
{
    let marked = seq!['['] + label + seq![']', '('] + url + seq![')'];
    let s = marked + q;
    let n = label.len() as int;
    let close = seq![']'];
    let end = seq![')'];
    let tail = seq!['('] + url + seq![')'] + q;
    assert(s.skip(1) =~= label + close + tail);
    closing_is_found(label, close, tail, label + close + tail, 0);
    assert(s[0] == '[');
    assert(s[n + 2] == '(');
    assert(s.skip(n + 3) =~= url + end + q);
    closing_is_found(url, end, q, url + end + q, 0);
    if seq!['*', '*'].is_prefix_of(s) {
        assert(s.subrange(0, 2)[0] == '*');
    }
    assert(s.subrange(1, 1 + n) =~= label);
    span_stands_between(
        text@,
        p,
        marked,
        label,
        Style { fg: Some(Color::Cyan), bold: false, italic: false, underlined: true },
        q,
        r@,
    );
}

/// A character behind a backslash stands for itself, whatever it is: the text is shown
/// with the character and without the backslash.
pub proof fn backslashes_escape(text: &str, p: Seq<char>, c: char, q: Seq<char>, r: Vec<Span>)
    requires
        call_ensures(inline_spans, (text,), r),
        text@ == p + seq!['\\', c] + q,
        ordinary_text(p),
        ordinary_text(q),
    ensures
        r@.len() == 1,
        r@[0].content@ == p + seq![c] + q,
        r@[0].style == (Style { fg: None, bold: false, italic: false, underlined: false }),
{
    let none = Seq::<char>::empty();
    let s = seq!['\\', c] + q;
    assert(text@ =~= p + s);
    ordinary_text_goes_on(p, s, none);
    assert(none + p =~= p);
    assert(s[0] == '\\');
    assert(s[1] == c);
    assert(s.skip(2) =~= q);
    let with = p.push(c);
    ordinary_text_goes_on(q, none, with);
    assert(q + none =~= q);
    assert(with + q =~= p + seq![c] + q);
    let v = span_views(r@);
    assert(v == plain_spans(with + q));
    assert(v.len() == r@.len());
    assert(v[0] == r@[0]@);
}

/// A text without marks is shown as it is, in one span; nothing is shown of nothing.
pub proof fn plain_text_is_shown(text: &str, r: Vec<Span>)
    requires
        call_ensures(inline_spans, (text,), r),
        ordinary_text(text@),
    ensures
        text@.len() > 0 ==> r@.len() == 1 && r@[0].content@ == text@ && r@[0].style == (Style {
            fg: None,
            bold: false,
            italic: false,
            underlined: false,
        }),
        text@.len() == 0 ==> r@.len() == 0,
{
    ordinary_text_is_plain(text@);
    let v = span_views(r@);
    assert(v.len() == r@.len());
    if text@.len() > 0 {
        assert(v[0] == r@[0]@);
    }
}

// ---- lines ----

proof fn hashes_are_counted(n: nat, rest: Seq<char>)
    requires
        rest.len() == 0 || rest[0] != '#',
    ensures
        hashes(Seq::new(n, |i: int| '#') + rest) == n,
    decreases n,
{
    let s = Seq::new(n, |i: int| '#') + rest;
    if n > 0 {
        let m = (n - 1) as nat;
        hashes_are_counted(m, rest);
        assert(s[0] == '#');
        assert(s.drop_first() =~= Seq::new(m, |i: int| '#') + rest);
    } else {
        assert(s =~= rest);
    }
}

/// A heading is shown with its marks and its whole text, every span of it bold, in the
/// colour of its level.
pub proof fn headings_are_shown(level: nat, content: Seq<char>, line: Seq<char>, k: int)
    requires
        1 <= level <= 6,
        content.len() > 0,
        !is_white(content[0]),
        line == Seq::new(level, |i: int| '#') + seq![' '] + content,
    ensures
        ({
            let l = prose_line(line);
            let inner = inline_spec(content, Seq::empty());
            &&& l.spans.len() == 1 + inner.len()
            &&& l.spans[0].content == Seq::new(level, |i: int| '#') + seq![' ']
            &&& 0 <= k < inner.len() ==> l.spans[k + 1].content == inner[k].content && l.spans[k
                + 1].style.bold && l.spans[k + 1].style.italic == inner[k].style.italic && l.spans[k
                + 1].style.fg == inner[k].style.fg && l.spans[k + 1].style.underlined
                == inner[k].style.underlined
            &&& l.style.fg == Some(
                if level == 1 {
                    Color::LightCyan
                } else if level == 2 {
                    Color::LightBlue
                } else {
                    Color::LightMagenta
                },
            )
        }),
{
    let marks = Seq::new(level, |i: int| '#');
    let rest = seq![' '] + content;
    assert(line =~= marks + rest);
    assert(line[0] == '#');
    assert(trim_start_spec(line) == line);
    hashes_are_counted(level, rest);
    assert(line.skip(level as int) =~= rest);
    assert(rest.drop_first() =~= content);
    reveal_with_fuel(trim_start_spec, 2);
    assert(trim_start_spec(rest) == content);
    assert(header_spec(line) == Some((level, content)));
    assert(header_mark(level) =~= marks + seq![' ']);
}

/// A quotation is shown with a bar before it and its whole text, every span of it
/// italic.
pub proof fn quotations_are_shown(content: Seq<char>, line: Seq<char>, k: int)
    requires
        line == seq!['>', ' '] + content,
    ensures
        ({
            let l = prose_line(line);
            let inner = inline_spec(content, Seq::empty());
            &&& l.spans.len() == 1 + inner.len()
            &&& l.spans[0].content == "▍"@
            &&& 0 <= k < inner.len() ==> l.spans[k + 1].content == inner[k].content && l.spans[k
                + 1].style.italic && l.spans[k + 1].style.bold == inner[k].style.bold
            &&& l.style.fg == Some(Color::Gray)
        }),
{
    assert(line[0] == '>');
    assert(trim_start_spec(line) == line);
    assert(hashes(line) == 0);
    assert(header_spec(line) is None);
    stripped_texts_go_with_the_rest(content, seq!['>', ' ']);
}

proof fn third_stays(line: Seq<char>)
    requires
        line.len() > 2,
        !is_white(line[0]),
        !is_white(line[2]),
    ensures
        trim_spec(line).len() > 2,
        trim_spec(line)[0] == line[0],
        trim_spec(line)[2] == line[2],
{
    let (a, b) = trim_bounds(line);
    if a > 0 {
        assert(is_white(line[0]));
    }
    if b <= 2 {
        assert(is_white(line[2]));
    }
}

/// An item of a list is shown with its mark and its whole text.
pub proof fn items_are_shown(m: char, content: Seq<char>, line: Seq<char>)
    requires
        m == '-' || m == '*' || m == '+',
        content.len() > 0,
        !is_white(content[0]),
        content[0] != '-' && content[0] != '*' && content[0] != '_',
        line == seq![m, ' '] + content,
    ensures
        prose_line(line).spans.len() == 1 + inline_spec(content, Seq::empty()).len(),
        prose_line(line).spans[0].content == seq![m, ' '],
        prose_line(line).spans[0].style.bold,
        prose_line(line).spans.skip(1) == inline_spec(content, Seq::empty()),
{
    assert(line[0] == m);
    assert(trim_start_spec(line) == line);
    assert(hashes(line) == 0);
    assert(header_spec(line) is None);
    if seq!['>', ' '].is_prefix_of(line) {
        assert(line.subrange(0, 2)[0] == '>');
    }
    assert(line[2] == content[0]);
    third_stays(line);
    if is_rule(line) {
        let t = trim_spec(line);
        assert(t[2] == t[0] || t[2] == ' ' || t[2] == '\t');
    }
    assert(line.skip(2) =~= content);
    assert(trim_start_spec(content) == content);
    let inner = inline_spec(content, Seq::empty());
    assert(prose_line(line).spans.skip(1) =~= inner);
}

proof fn digits_are_counted(d: Seq<char>, rest: Seq<char>)
    requires
        forall|k: int| 0 <= k < d.len() ==> is_digit(#[trigger] d[k]),
        rest.len() == 0 || !is_digit(rest[0]),
    ensures
        digits_len(d + rest) == d.len(),
    decreases d.len(),
{
    let s = d + rest;
    if d.len() > 0 {
        let e = d.drop_first();
        assert(s[0] == d[0]);
        assert(is_digit(d[0]));
        assert forall|k: int| 0 <= k < e.len() implies is_digit(#[trigger] e[k]) by {
            assert(e[k] == d[k + 1]);
        }
        digits_are_counted(e, rest);
        assert(s.drop_first() =~= e + rest);
    } else {
        assert(s =~= rest);
    }
}

/// A numbered item is shown with its number and its whole text.
pub proof fn numbered_items_are_shown(d: Seq<char>, content: Seq<char>, line: Seq<char>)
    requires
        d.len() > 0,
        forall|k: int| 0 <= k < d.len() ==> is_digit(#[trigger] d[k]),
        content.len() > 0,
        !is_white(content[0]),
        line == d + seq!['.', ' '] + content,
    ensures
        prose_line(line).spans.len() == 1 + inline_spec(content, Seq::empty()).len(),
        prose_line(line).spans[0].content == d + seq!['.', ' '],
        prose_line(line).spans.skip(1) == inline_spec(content, Seq::empty()),
{
    let n = d.len() as int;
    let rest = seq!['.', ' '] + content;
    assert(line =~= d + rest);
    assert(line[0] == d[0]);
    assert(is_digit(d[0]));
    assert(trim_start_spec(line) == line);
    assert(hashes(line) == 0);
    assert(header_spec(line) is None);
    if seq!['>', ' '].is_prefix_of(line) {
        assert(line.subrange(0, 2)[0] == '>');
    }
    let (a, b) = trim_bounds(line);
    let t = trim_spec(line);
    if a > 0 {
        assert(is_white(line[0]));
    }
    if b == 0 {
        assert(is_white(line[0]));
    }
    assert(t[0] == line[0]);
    assert(!is_rule(line));
    digits_are_counted(d, rest);
    assert(line.take(n) =~= d);
    assert(line.skip(n + 2) =~= content);
    assert(line[n] == '.');
    assert(line[n + 1] == ' ');
    assert(trim_start_spec(content) == content);
    let inner = inline_spec(content, Seq::empty());
    assert(prose_line(line).spans.skip(1) =~= inner);
}

proof fn marks_are_counted(n: nat, m: char)
    ensures
        times(Seq::new(n, |i: int| m), m) == n,
    decreases n,
{
    let s = Seq::new(n, |i: int| m);
    if n > 0 {
        let k = (n - 1) as nat;
        marks_are_counted(k, m);
        assert(s.drop_last() =~= Seq::new(k, |i: int| m));
    }
}

/// Three or more of a mark are shown as a rule.
pub proof fn rules_are_shown(n: nat, m: char, line: Seq<char>)
    requires
        n >= 3,
        m == '-' || m == '*' || m == '_',
        line == Seq::new(n, |i: int| m),
    ensures
        prose_line(line).spans.len() == 1,
        prose_line(line).spans[0].content == "─────"@,
{
    assert(line[0] == m);
    assert(line.last() == m);
    assert(trim_start_spec(line) == line);
    assert(trim_end_spec(line) == line);
    marks_are_counted(n, m);
    assert(is_rule(line));
    rules_are_no_items(line);
}

/// A line that begins with none of the marks is shown as its spans.
pub proof fn other_lines_are_shown(line: Seq<char>)
    requires
        line.len() > 0,
        !is_white(line[0]),
        !is_digit(line[0]),
        line[0] != '#' && line[0] != '>' && line[0] != '-' && line[0] != '*' && line[0] != '_'
            && line[0] != '+',
    ensures
        prose_line(line).spans == inline_spec(line, Seq::empty()),
        prose_line(line).style == (Style { fg: None, bold: false, italic: false, underlined: false }),
{
    assert(trim_start_spec(line) == line);
    assert(hashes(line) == 0);
    assert(header_spec(line) is None);
    if seq!['>', ' '].is_prefix_of(line) {
        assert(line.subrange(0, 2)[0] == '>');
    }
    let (a, b) = trim_bounds(line);
    if a > 0 {
        assert(is_white(line[0]));
    }
    if b == 0 {
        assert(is_white(line[0]));
    }
    assert(trim_spec(line)[0] == line[0]);
    assert(!is_rule(line));
    assert(digits_len(line) == 0);
}

proof fn prose_is_shown(raw: Seq<Seq<char>>, in_code: bool, i: int)
    requires
        0 <= i < raw.len(),
    ensures
        lines_shown(raw, in_code).len() == raw.len(),
        is_fence(trim_end_spec(raw[i])) ==> lines_shown(raw, in_code)[i] == fence_line(
            trim_end_spec(raw[i]),
        ),
        !is_fence(trim_end_spec(raw[i])) && !code_on(raw, in_code, i) ==> lines_shown(
            raw,
            in_code,
        )[i] == prose_line(trim_end_spec(raw[i])),
    decreases raw.len(),
{
    one_line_for_each(raw, in_code);
    let d = raw.drop_first();
    one_line_for_each(d, false);
    one_line_for_each(d, true);
    if i > 0 {
        let now = if is_fence(trim_end_spec(raw[0])) {
            !in_code
        } else {
            in_code
        };
        assert(d[i - 1] == raw[i]);
        prose_is_shown(d, now, i - 1);
        code_on_goes_on(raw, in_code, i);
    }
}

proof fn code_on_goes_on(raw: Seq<Seq<char>>, in_code: bool, i: int)
    requires
        0 < i <= raw.len(),
    ensures
        code_on(raw, in_code, i) == code_on(
            raw.drop_first(),
            if is_fence(trim_end_spec(raw[0])) {
                !in_code
            } else {
                in_code
            },
            i - 1,
        ),
    decreases i,
{
    reveal_with_fuel(code_on, 2);
    if i > 1 {
        code_on_goes_on(raw, in_code, i - 1);
        assert(raw.drop_first()[i - 2] == raw[i - 1]);
    }
}

/// A text is shown whole, line by line: one line for each of its own. Outside code each
/// is shown for what it is, without the white space at its end; inside code as it is,
/// character by character.
pub proof fn every_line_is_rendered(text: &str, r: Vec<Line>, i: int)
    requires
        call_ensures(render, (text,), r),
    ensures
        ({
            let raw = split_spec(text@, '\n');
            &&& r@.len() == raw.len()
            &&& 0 <= i < raw.len() && !is_fence(trim_end_spec(raw[i])) && !code_on(raw, false, i)
                ==> r@[i]@ == prose_line(trim_end_spec(raw[i]))
            &&& 0 <= i < raw.len() && !is_fence(trim_end_spec(raw[i])) && code_on(raw, false, i)
                ==> r@[i].spans@.len() == 1 && r@[i].spans@[0].content@ == raw[i]
            &&& 0 <= i < raw.len() && is_fence(trim_end_spec(raw[i])) ==> r@[i].spans@.len() >= 1
                && r@[i].spans@[0].content@ == "```"@
        }),
{
    let raw = split_spec(text@, '\n');
    let v = line_views(r@);
    assert(v == lines_shown(raw, false));
    assert(v.len() == r@.len());
    one_line_for_each(raw, false);
    if 0 <= i < raw.len() {
        prose_is_shown(raw, false, i);
        assert(v[i] == r@[i]@);
        let s = span_views(r@[i].spans@);
        assert(s.len() == r@[i].spans@.len());
        if is_fence(trim_end_spec(raw[i])) {
            assert(s == fence_line(trim_end_spec(raw[i])).spans);
            assert(s[0] == r@[i].spans@[0]@);
        } else if code_on(raw, false, i) {
            code_is_kept(raw, false, i);
            assert(s[0] == r@[i].spans@[0]@);
        }
    }
}

/// A line is a fence exactly if it begins with three backticks, after white space; the
/// language that it names is shown with it. A fence turns code on or off for the lines
/// that follow.
pub proof fn fences_turn_code_on_and_off(raw: Seq<Seq<char>>, i: int, lang: Seq<char>, line: Seq<char>)
    requires
        0 <= i < raw.len(),
    ensures
        !code_on(raw, false, 0),
        is_fence(trim_end_spec(raw[i])) ==> code_on(raw, false, i + 1) != code_on(raw, false, i),
        !is_fence(trim_end_spec(raw[i])) ==> code_on(raw, false, i + 1) == code_on(raw, false, i),
        line == seq!['`', '`', '`'] + lang && trim_spec(lang) == lang ==> is_fence(line) && (
        lang.len() > 0 ==> fence_line(line).spans.len() == 2 && fence_line(line).spans[1].content
            == seq![' '] + lang),
        line.len() > 0 && !is_white(line[0]) && line[0] != '`' ==> !is_fence(line),
{
    let three = seq!['`', '`', '`'];
    if line == three + lang && trim_spec(lang) == lang {
        assert(line[0] == '`');
        assert(trim_start_spec(line) == line);
        assert(three =~= line.subrange(0, 3));
        assert(line.skip(3) =~= lang);
        reveal_strlit(" ");
        assert(" "@ =~= seq![' ']);
    }
    if line.len() > 0 && !is_white(line[0]) && line[0] != '`' {
        assert(trim_start_spec(line) == line);
        if three.is_prefix_of(line) {
            assert(line.subrange(0, 3)[0] == '`');
        }
    }
}

proof fn complete_lines_render(raw: Seq<Seq<char>>, in_code: bool)
    requires
        forall|i: int|
            0 <= i < raw.len() ==> {
                let l = trim_end_spec(#[trigger] raw[i]);
                l.len() == 0 || l.last() != '\\'
            },
    ensures
        crate::tui::markdown::lines_complete(raw, in_code),
    decreases raw.len(),
{
    if raw.len() > 0 {
        let d = raw.drop_first();
        assert forall|i: int| 0 <= i < d.len() implies {
            let l = trim_end_spec(#[trigger] d[i]);
            l.len() == 0 || l.last() != '\\'
        } by {
            assert(d[i] == raw[i + 1]);
        }
        complete_lines_render(d, in_code);
        complete_lines_render(d, !in_code);
        let l = trim_end_spec(raw[0]);
        assert(tail_backslashes(l) == 0);
    }
}

/// A text of which no line ends in a backslash can be shown.
pub proof fn texts_without_loose_ends_render(text: &str, r: bool)
    requires
        call_ensures(can_render, (text,), r),
        forall|i: int|
            0 <= i < split_spec(text@, '\n').len() ==> {
                let l = trim_end_spec(#[trigger] split_spec(text@, '\n')[i]);
                l.len() == 0 || l.last() != '\\'
            },
    ensures
        r,
{
    complete_lines_render(split_spec(text@, '\n'), false);
}

}  // verus!
