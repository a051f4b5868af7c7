//! Light Markdown to styled lines: headings, bold, italic, inline code, fenced
//! code, lists, quotes, rules, links and backslash escapes.

use crate::text::number::is_digit;
use crate::text::search::{matches_at, occurs_at, starts_with, strip_prefix, strip_prefix_spec};
use crate::text::split::{split, split_spec};
use crate::text::trim::{
    is_white, trim, trim_end, trim_end_spec, trim_spec, trim_start, trim_start_spec, white,
};
use crate::text::{chars_of, string_of, texts};
use crate::tui::style::{
    colored, line_views, no_style, patched, span_views, Color, Line, LineView, Span, SpanView, Style,
};
use vstd::prelude::*;
use vstd::string::*;

verus! {

// ---- the style sheet ----

pub open spec fn code_style() -> Style {
    colored(Color::Rgb(0xE6, 0xDB, 0x74))
}

pub open spec fn dim_style() -> Style {
    colored(Color::DarkGray)
}

pub open spec fn bold_style() -> Style {
    Style { bold: true, ..no_style() }
}

pub open spec fn italic_style() -> Style {
    Style { italic: true, ..no_style() }
}

pub open spec fn link_style() -> Style {
    Style { underlined: true, ..colored(Color::Cyan) }
}

pub open spec fn bullet_style() -> Style {
    Style { bold: true, ..colored(Color::LightCyan) }
}

pub open spec fn header_color_spec(level: nat) -> Color {
    if level == 1 {
        Color::LightCyan
    } else if level == 2 {
        Color::LightBlue
    } else {
        Color::LightMagenta
    }
}

fn code() -> (r: Style)
    ensures
        r == code_style(),
{
    Style::color(Color::Rgb(0xE6, 0xDB, 0x74))
}

fn dim() -> (r: Style)
    ensures
        r == dim_style(),
{
    Style::color(Color::DarkGray)
}

fn bold() -> (r: Style)
    ensures
        r == bold_style(),
{
    Style { fg: None, bold: true, italic: false, underlined: false }
}

fn italic() -> (r: Style)
    ensures
        r == italic_style(),
{
    Style { fg: None, bold: false, italic: true, underlined: false }
}

fn link() -> (r: Style)
    ensures
        r == link_style(),
{
    Style { fg: Some(Color::Cyan), bold: false, italic: false, underlined: true }
}

fn bullet() -> (r: Style)
    ensures
        r == bullet_style(),
{
    Style { fg: Some(Color::LightCyan), bold: true, italic: false, underlined: false }
}

fn header_color(level: usize) -> (r: Color)
    ensures
        r == header_color_spec(level as nat),
{
    if level == 1 {
        Color::LightCyan
    } else if level == 2 {
        Color::LightBlue
    } else {
        Color::LightMagenta
    }
}

// ---- inline spans ----

/// The first index, from `i` on, at which `delim` stands in `s` and is not
/// escaped by a backslash.
pub open spec fn unescaped(s: Seq<char>, delim: Seq<char>, i: int) -> Option<int>
    decreases s.len() - i + 1,
{
    if i < 0 || i >= s.len() {
        None
    } else if s[i] == '\\' {
        unescaped(s, delim, i + 2)
    } else if occurs_at(s, delim, i) {
        Some(i)
    } else {
        unescaped(s, delim, i + 1)
    }
}

/// The styled span that `s` begins with, if it begins with one, and how many
/// characters it takes. Bold comes before italic; an italic span is not empty;
/// of a link only the label is shown.
pub open spec fn span_at(s: Seq<char>) -> Option<(SpanView, int)> {
    let bold_end = unescaped(s.skip(2), seq!['*', '*'], 0);
    let mark_end = unescaped(s.skip(1), seq![s[0]], 0);
    if seq!['*', '*'].is_prefix_of(s) && bold_end is Some {
        let e = bold_end->0;
        Some((SpanView { content: s.subrange(2, 2 + e), style: bold_style() }, e + 4))
    } else if (s[0] == '*' || s[0] == '_') && mark_end is Some && mark_end->0 > 0 {
        let e = mark_end->0;
        Some((SpanView { content: s.subrange(1, 1 + e), style: italic_style() }, e + 2))
    } else if s[0] == '`' && mark_end is Some {
        let e = mark_end->0;
        Some((SpanView { content: s.subrange(1, 1 + e), style: code_style() }, e + 2))
    } else if s[0] == '[' {
        link_at(s)
    } else {
        None
    }
}

/// The link that `s` begins with, if it begins with one: a label in brackets and
/// an address in parentheses.
pub open spec fn link_at(s: Seq<char>) -> Option<(SpanView, int)> {
    let label_end = unescaped(s.skip(1), seq![']'], 0);
    if label_end is Some && s.len() > label_end->0 + 2 && s[label_end->0 + 2] == '(' && unescaped(
        s.skip(label_end->0 + 3),
        seq![')'],
        0,
    ) is Some {
        let e = label_end->0;
        let u = unescaped(s.skip(e + 3), seq![')'], 0)->0;
        Some((SpanView { content: s.subrange(1, 1 + e), style: link_style() }, e + u + 4))
    } else {
        None
    }
}

/// The span that unstyled text becomes: none where there is no text.
pub open spec fn plain_spans(plain: Seq<char>) -> Seq<SpanView> {
    if plain.len() == 0 {
        Seq::empty()
    } else {
        seq![SpanView { content: plain, style: no_style() }]
    }
}

/// The spans of a text, where `plain` is the unstyled text just before it.
pub open spec fn inline_spec(s: Seq<char>, plain: Seq<char>) -> Seq<SpanView>
    decreases s.len(),
{
    if s.len() == 0 {
        plain_spans(plain)
    } else if s[0] == '\\' {
        if s.len() < 2 {
            plain_spans(plain)
        } else {
            inline_spec(s.skip(2), plain.push(s[1]))
        }
    } else {
        match span_at(s) {
            Some((span, n)) => if 0 < n <= s.len() {
                plain_spans(plain) + seq![span] + inline_spec(s.skip(n), Seq::empty())
            } else {
                Seq::empty()
            },
            None => inline_spec(s.skip(1), plain.push(s[0])),
        }
    }
}

/// How many backslashes a text ends with.
pub open spec fn tail_backslashes(s: Seq<char>) -> nat
    decreases s.len(),
{
    if s.len() > 0 && s.last() == '\\' {
        1 + tail_backslashes(s.drop_last())
    } else {
        0
    }
}

/// Whether every backslash of a text that escapes has a character to escape: the
/// text does not end in an odd number of backslashes.
pub open spec fn escapes_complete(s: Seq<char>) -> bool {
    tail_backslashes(s) % 2 == 0
}

proof fn lemma_tail_suffix(s: Seq<char>, n: int)
    requires
        0 < n <= s.len(),
        s[n - 1] != '\\',
    ensures
        tail_backslashes(s.skip(n)) == tail_backslashes(s),
    decreases s.len(),
{
    if n == s.len() {
        assert(s.skip(n).len() == 0);
        assert(s.last() == s[n - 1]);
    } else {
        assert(s.skip(n).last() == s.last());
        if s.last() == '\\' {
            let d = s.drop_last();
            assert(d[n - 1] == s[n - 1]);
            lemma_tail_suffix(d, n);
            assert(d.skip(n) =~= s.skip(n).drop_last());
        }
    }
}

proof fn lemma_tail_escape(s: Seq<char>)
    requires
        s.len() > 0,
        s[0] == '\\',
        escapes_complete(s),
    ensures
        s.len() >= 2,
        escapes_complete(s.skip(2)),
    decreases s.len(),
{
    if s.len() == 1 {
        assert(s.drop_last() =~= Seq::<char>::empty());
        assert(tail_backslashes(s.drop_last()) == 0);
        assert(tail_backslashes(s) == 1);
    } else if s[1] != '\\' {
        lemma_tail_suffix(s, 2);
    } else {
        lemma_tail_pair(s);
    }
}

/// Two backslashes at the front of a text do not change how many it ends with,
/// or are themselves counted.
proof fn lemma_tail_pair(s: Seq<char>)
    requires
        s.len() >= 2,
        s[0] == '\\',
        s[1] == '\\',
    ensures
        tail_backslashes(s) % 2 == tail_backslashes(s.skip(2)) % 2,
    decreases s.len(),
{
    if s.len() == 2 {
        assert(s.skip(2).len() == 0);
        let d = s.drop_last();
        assert(d.last() == '\\');
        assert(d.drop_last().len() == 0);
        assert(tail_backslashes(d.drop_last()) == 0);
        assert(tail_backslashes(d) == 1);
        assert(tail_backslashes(s) == 2);
    } else {
        assert(s.skip(2).last() == s.last());
        if s.last() == '\\' {
            let d = s.drop_last();
            lemma_tail_pair(d);
            assert(d.skip(2) =~= s.skip(2).drop_last());
        }
    }
}

/// The first index, from `from` on, at which `delim` stands in `v` unescaped,
/// counted from `from`.
fn find_unmatched(v: &Vec<char>, from: usize, delim: &Vec<char>) -> (r: Option<usize>)
    requires
        delim@.len() > 0,
    ensures
        match r {
            Some(e) => from + e + delim@.len() <= v@.len() && unescaped(
                v@.skip(from as int),
                delim@,
                0,
            ) == Some(e as int) && v@.subrange(from + e, from + e + delim@.len()) == delim@,
            None => from <= v@.len() ==> unescaped(v@.skip(from as int), delim@, 0) is None,
        },
{
    if from > v.len() {
        return None;
    }
    let n: usize = v.len();
    let ghost s = v@.skip(from as int);
    let mut i: usize = from;
    loop
        invariant
            n == v@.len(),
            from <= n,
            from <= i,
            i <= n + 1,
            s == v@.skip(from as int),
            delim@.len() > 0,
            unescaped(s, delim@, 0) == unescaped(s, delim@, i - from),
        decreases n + 1 - i,
    {
        if i >= n {
            return None;
        }
        if v[i] == '\\' {
            assert(s[i - from] == '\\');
            if i + 1 >= n {
                assert(unescaped(s, delim@, i - from + 2) is None);
                return None;
            }
            i += 2;
        } else {
            let hit = matches_at(v, delim, i);
            proof {
                if i + delim@.len() <= n {
                    assert(s.subrange(i - from, i - from + delim@.len()) =~= v@.subrange(
                        i as int,
                        i + delim@.len(),
                    ));
                }
            }
            if hit {
                return Some(i - from);
            }
            i += 1;
        }
    }
}

fn one(c: char) -> (r: Vec<char>)
    ensures
        r@ == seq![c],
{
    let mut v: Vec<char> = Vec::new();
    v.push(c);
    assert(v@ =~= seq![c]);
    v
}

fn two(c: char) -> (r: Vec<char>)
    ensures
        r@ == seq![c, c],
{
    let mut v: Vec<char> = Vec::new();
    v.push(c);
    v.push(c);
    assert(v@ =~= seq![c, c]);
    v
}

/// The link that stands in `v` from `pos` on, and the index after it.
fn take_link(v: &Vec<char>, pos: usize) -> (r: Option<(Span, usize)>)
    requires
        pos < v@.len(),
    ensures
        match r {
            Some((span, next)) => pos < next <= v@.len() && link_at(v@.skip(pos as int)) == Some(
                (span@, next - pos),
            ) && v@[next - 1] != '\\',
            None => link_at(v@.skip(pos as int)) is None,
        },
{
    let ghost s = v@.skip(pos as int);
    let n: usize = v.len();
    assert(v@.skip(pos + 1) =~= s.skip(1));
    if let Some(e) = find_unmatched(v, pos + 1, &one(']')) {
        let open: usize = pos + e + 2;
        if open < n && v[open] == '(' {
            assert(s[e + 2] == '(');
            assert(v@.skip(open + 1) =~= s.skip(e + 3));
            if let Some(u) = find_unmatched(v, open + 1, &one(')')) {
                let content = string_of(v, pos + 1, pos + 1 + e);
                assert(content@ =~= s.subrange(1, 1 + e));
                assert(v@.subrange(open + 1 + u, open + 2 + u)[0] == ')');
                return Some((Span::styled(content, link()), open + u + 2));
            }
        }
    }
    None
}

/// The styled span that stands in `v` from `pos` on, and the index after it.
#[verifier::rlimit(40)]
fn take_span(v: &Vec<char>, pos: usize) -> (r: Option<(Span, usize)>)
    requires
        pos < v@.len(),
    ensures
        match r {
            Some((span, next)) => pos < next <= v@.len() && span_at(v@.skip(pos as int)) == Some(
                (span@, next - pos),
            ) && v@[next - 1] != '\\',
            None => span_at(v@.skip(pos as int)) is None,
        },
{
    let ghost s = v@.skip(pos as int);
    let n: usize = v.len();
    let c = v[pos];
    assert(s[0] == c);
    let stars = two('*');
    assert(seq!['*', '*'].is_prefix_of(s) <==> s.len() >= 2 && s[0] == '*' && s[1] == '*') by {
        if s.len() >= 2 && s[0] == '*' && s[1] == '*' {
            assert(s.subrange(0, 2) =~= seq!['*', '*']);
        }
        if seq!['*', '*'].is_prefix_of(s) {
            assert(s.subrange(0, 2) == seq!['*', '*']);
            assert(s.subrange(0, 2)[0] == s[0]);
            assert(s.subrange(0, 2)[1] == s[1]);
        }
    }
    if c == '*' && n - pos >= 2 && v[pos + 1] == '*' {
        assert(v@.skip(pos + 2) =~= s.skip(2));
        if let Some(e) = find_unmatched(v, pos + 2, &stars) {
            let content = string_of(v, pos + 2, pos + 2 + e);
            assert(content@ =~= s.subrange(2, 2 + e));
            assert(v@.subrange(pos + 2 + e, pos + 4 + e)[1] == '*');
            return Some((Span::styled(content, bold()), pos + e + 4));
        }
    }
    assert(v@.skip(pos + 1) =~= s.skip(1));
    if c == '*' || c == '_' {
        if let Some(e) = find_unmatched(v, pos + 1, &one(c)) {
            assert(v@.subrange(pos + 1 + e, pos + 2 + e)[0] == c);
            if e > 0 {
                let content = string_of(v, pos + 1, pos + 1 + e);
                assert(content@ =~= s.subrange(1, 1 + e));
                return Some((Span::styled(content, italic()), pos + e + 2));
            }
        }
    }
    if c == '`' {
        if let Some(e) = find_unmatched(v, pos + 1, &one(c)) {
            let content = string_of(v, pos + 1, pos + 1 + e);
            assert(content@ =~= s.subrange(1, 1 + e));
            assert(v@.subrange(pos + 1 + e, pos + 2 + e)[0] == c);
            return Some((Span::styled(content, code()), pos + e + 2));
        }
    }
    if c == '[' {
        return take_link(v, pos);
    }
    None
}

fn flush(plain: String, spans: &mut Vec<Span>)
    ensures
        span_views(final(spans)@) == span_views(old(spans)@) + plain_spans(plain@),
{
    if !plain.as_str().is_empty() {
        let ghost before = spans@;
        spans.push(Span::raw(plain));
        assert(span_views(spans@) =~= span_views(before) + plain_spans(plain@));
    } else {
        assert(span_views(spans@) + plain_spans(plain@) =~= span_views(spans@));
    }
}

/// The spans of one line's text.
pub fn inline_spans(text: &str) -> (r: Vec<Span>)
    requires
        escapes_complete(text@),
    ensures
        span_views(r@) == inline_spec(text@, Seq::empty()),
{
    let v = chars_of(text);
    let n: usize = v.len();
    let mut spans: Vec<Span> = Vec::new();
    let mut plain = String::new();
    let mut pos: usize = 0;
    assert(v@.skip(0) =~= text@);
    assert(plain@ =~= Seq::<char>::empty());
    assert(span_views(spans@) + inline_spec(text@, Seq::empty()) =~= inline_spec(
        text@,
        Seq::empty(),
    ));
    while pos < n
        invariant
            n == v@.len(),
            pos <= n,
            escapes_complete(v@.skip(pos as int)),
            span_views(spans@) + inline_spec(v@.skip(pos as int), plain@) == inline_spec(
                text@,
                Seq::empty(),
            ),
        decreases n - pos,
    {
        let ghost s = v@.skip(pos as int);
        let c = v[pos];
        assert(s[0] == c);
        if c == '\\' {
            proof {
                lemma_tail_escape(s);
                assert(s.skip(2) =~= v@.skip(pos + 2));
            }
            plain.push(v[pos + 1]);
            pos += 2;
        } else {
            match take_span(&v, pos) {
                Some((span, next)) => {
                    let ghost before = span_views(spans@);
                    let ghost k = next - pos;
                    let ghost old_plain = plain@;
                    flush(plain, &mut spans);
                    spans.push(span);
                    plain = String::new();
                    proof {
                        assert(s[k - 1] == v@[next - 1]);
                        lemma_tail_suffix(s, k);
                        assert(s.skip(k) =~= v@.skip(next as int));
                        assert(plain@ =~= Seq::<char>::empty());
                        assert(span_views(spans@) =~= (before + plain_spans(old_plain)).push(span@));
                        assert(span_views(spans@) + inline_spec(s.skip(k), Seq::empty()) =~= before
                            + (plain_spans(old_plain) + seq![span@] + inline_spec(
                            s.skip(k),
                            Seq::empty(),
                        )));
                    }
                    pos = next;
                },
                None => {
                    proof {
                        lemma_tail_suffix(s, 1);
                        assert(s.skip(1) =~= v@.skip(pos + 1));
                    }
                    plain.push(c);
                    pos += 1;
                },
            }
        }
    }
    assert(v@.skip(pos as int).len() == 0);
    flush(plain, &mut spans);
    spans
}

// ---- lines ----

/// How many `#` a text begins with.
pub open spec fn hashes(s: Seq<char>) -> nat
    decreases s.len(),
{
    if s.len() > 0 && s[0] == '#' {
        1 + hashes(s.drop_first())
    } else {
        0
    }
}

/// The level and the content of a heading: one to six `#`, then nothing or white
/// space.
pub open spec fn header_spec(line: Seq<char>) -> Option<(nat, Seq<char>)> {
    let t = trim_start_spec(line);
    let level = hashes(t);
    let rest = t.skip(level as int);
    if level == 0 || level > 6 {
        None
    } else if rest.len() == 0 {
        Some((level, Seq::empty()))
    } else if !is_white(rest[0]) {
        None
    } else {
        Some((level, trim_start_spec(rest)))
    }
}

/// The mark and the content of a list item: `- `, `* `, `+ `, or digits and
/// `. `.
pub open spec fn list_spec(line: Seq<char>) -> Option<(Seq<char>, Seq<char>)> {
    let t = trim_start_spec(line);
    let d = digits_len(t);
    if t.len() >= 2 && (t[0] == '-' || t[0] == '*' || t[0] == '+') && t[1] == ' ' {
        Some((seq![t[0], ' '], trim_start_spec(t.skip(2))))
    } else if d > 0 && d + 2 <= t.len() && t[d as int] == '.' && t[d as int + 1] == ' ' {
        Some((t.take(d as int) + seq!['.', ' '], trim_start_spec(t.skip(d as int + 2))))
    } else {
        None
    }
}

/// How many ASCII digits a text begins with.
pub open spec fn digits_len(s: Seq<char>) -> nat
    decreases s.len(),
{
    if s.len() > 0 && is_digit(s[0]) {
        1 + digits_len(s.drop_first())
    } else {
        0
    }
}

/// How often a character stands in a text.
pub open spec fn times(s: Seq<char>, c: char) -> nat
    decreases s.len(),
{
    if s.len() == 0 {
        0
    } else {
        times(s.drop_last(), c) + (if s.last() == c {
            1nat
        } else {
            0
        })
    }
}

/// Whether a line is a rule: three or more of `-`, of `*` or of `_`, with spaces
/// and tabs between them at most.
pub open spec fn is_rule(line: Seq<char>) -> bool {
    let t = trim_spec(line);
    &&& times(t, t[0]) >= 3
    &&& t[0] == '-' || t[0] == '*' || t[0] == '_'
    &&& forall|k: int| 0 <= k < t.len() ==> #[trigger] t[k] == t[0] || t[k] == ' ' || t[k] == '\t'
}

/// `level` times `#`, and a space.
pub open spec fn header_mark(level: nat) -> Seq<char> {
    Seq::new(level, |i: int| '#').push(' ')
}

/// Spans with a style laid over each of them.
pub open spec fn restyled(spans: Seq<SpanView>, over: Style) -> Seq<SpanView> {
    spans.map_values(
        |s: SpanView| SpanView { content: s.content, style: patched(s.style, over) },
    )
}

/// Whether a line opens or closes a block of code.
pub open spec fn is_fence(line: Seq<char>) -> bool {
    seq!['`', '`', '`'].is_prefix_of(trim_start_spec(line))
}

/// The line that a fence is shown as: the backticks, and the language where one
/// is named.
pub open spec fn fence_line(line: Seq<char>) -> LineView {
    let lang = trim_spec(trim_start_spec(line).skip(3));
    let mark = SpanView { content: "```"@, style: dim_style() };
    LineView {
        spans: if lang.len() == 0 {
            seq![mark]
        } else {
            seq![mark, SpanView { content: " "@ + lang, style: dim_style() }]
        },
        style: no_style(),
    }
}

/// The line that a line of text outside code is shown as.
pub open spec fn prose_line(line: Seq<char>) -> LineView {
    if let Some((level, content)) = header_spec(line) {
        LineView {
            spans: seq![SpanView { content: header_mark(level), style: dim_style() }] + restyled(
                inline_spec(content, Seq::empty()),
                bold_style(),
            ),
            style: colored(header_color_spec(level)),
        }
    } else if let Some(content) = strip_prefix_spec(line, seq!['>', ' ']) {
        LineView {
            spans: seq![SpanView { content: "▍"@, style: colored(Color::Gray) }] + restyled(
                inline_spec(content, Seq::empty()),
                italic_style(),
            ),
            style: colored(Color::Gray),
        }
    } else if is_rule(line) {
        LineView {
            spans: seq![SpanView { content: "─────"@, style: dim_style() }],
            style: no_style(),
        }
    } else if let Some((mark, content)) = list_spec(line) {
        LineView {
            spans: seq![SpanView { content: mark, style: bullet_style() }] + inline_spec(
                content,
                Seq::empty(),
            ),
            style: no_style(),
        }
    } else {
        LineView { spans: inline_spec(line, Seq::empty()), style: no_style() }
    }
}

/// The lines that lines of text are shown as. A fence turns code on or off; code
/// is kept as it is.
pub open spec fn lines_shown(raw: Seq<Seq<char>>, in_code: bool) -> Seq<LineView>
    decreases raw.len(),
{
    if raw.len() == 0 {
        Seq::empty()
    } else {
        let line = trim_end_spec(raw[0]);
        if is_fence(line) {
            seq![fence_line(line)] + lines_shown(raw.drop_first(), !in_code)
        } else if in_code {
            seq![
                LineView {
                    spans: seq![SpanView { content: raw[0], style: code_style() }],
                    style: no_style(),
                },
            ] + lines_shown(raw.drop_first(), true)
        } else {
            seq![prose_line(line)] + lines_shown(raw.drop_first(), false)
        }
    }
}

/// Whether no line outside code ends in a backslash with nothing to escape.
pub open spec fn lines_complete(raw: Seq<Seq<char>>, in_code: bool) -> bool
    decreases raw.len(),
{
    if raw.len() == 0 {
        true
    } else {
        let line = trim_end_spec(raw[0]);
        if is_fence(line) {
            lines_complete(raw.drop_first(), !in_code)
        } else {
            (in_code || escapes_complete(line)) && lines_complete(raw.drop_first(), in_code)
        }
    }
}

/// What a whole text is shown as.
pub open spec fn render_spec(text: Seq<char>) -> Seq<LineView> {
    lines_shown(split_spec(text, '\n'), false)
}

/// Whether a text can be shown: no line outside code ends in an escape with
/// nothing after it.
pub open spec fn renderable(text: Seq<char>) -> bool {
    lines_complete(split_spec(text, '\n'), false)
}

proof fn lemma_trim_start_skip(s: Seq<char>)
    ensures
        trim_start_spec(s).len() <= s.len(),
        trim_start_spec(s) == s.skip(s.len() - trim_start_spec(s).len()),
        trim_start_spec(s).len() < s.len() ==> is_white(s[s.len() - trim_start_spec(s).len() - 1]),
    decreases s.len(),
{
    let k = s.len() - trim_start_spec(s).len();
    if s.len() > 0 && is_white(s[0]) {
        let d = s.drop_first();
        lemma_trim_start_skip(d);
        assert(d.skip(k - 1) =~= s.skip(k));
        if k > 1 {
            assert(d[k - 2] == s[k - 1]);
        }
    } else {
        assert(s.skip(0) =~= s);
    }
}

/// What is left of a text behind a blank is as complete as the text.
proof fn lemma_complete_behind_blank(s: Seq<char>, from: int)
    requires
        0 < from <= s.len(),
        is_white(s[from - 1]),
        escapes_complete(s),
    ensures
        escapes_complete(trim_start_spec(s.skip(from))),
{
    let t = s.skip(from);
    lemma_trim_start_skip(t);
    let k = t.len() - trim_start_spec(t).len();
    assert(t.skip(k) =~= s.skip(from + k));
    if k > 0 {
        assert(t[k - 1] == s[from + k - 1]);
    }
    lemma_tail_suffix(s, from + k);
}

/// The level and the content of a heading.
fn header_of(line: &str) -> (r: Option<(usize, String)>)
    ensures
        match r {
            Some((level, content)) => level <= 6 && header_spec(line@) == Some(
                (level as nat, content@),
            ) && (escapes_complete(line@) ==> escapes_complete(content@)),
            None => header_spec(line@) is None,
        },
{
    let t = trim_start(line);
    let v = chars_of(t.as_str());
    let n: usize = v.len();
    let mut level: usize = 0;
    assert(v@.skip(0) =~= t@);
    while level < n && v[level] == '#'
        invariant
            n == v@.len(),
            level <= n,
            hashes(v@) == level + hashes(v@.skip(level as int)),
            level > 0 ==> v@[level - 1] == '#',
        decreases n - level,
    {
        assert(v@.skip(level as int).drop_first() =~= v@.skip(level as int + 1));
        level += 1;
    }
    assert(hashes(v@.skip(level as int)) == 0);
    if level == 0 || level > 6 {
        return None;
    }
    let rest = string_of(&v, level, n);
    assert(rest@ =~= t@.skip(level as int));
    if level == n {
        assert(tail_backslashes(Seq::<char>::empty()) == 0);
        let content = String::new();
        assert(content@ =~= Seq::<char>::empty());
        return Some((level, content));
    }
    if !white(v[level]) {
        return None;
    }
    let content = trim_start(rest.as_str());
    proof {
        if escapes_complete(line@) {
            lemma_trim_start_skip(line@);
            let a = line@.len() - t@.len();
            let from = a + level + 1;
            assert(line@[from - 1] == t@[level as int]);
            lemma_complete_behind_blank(line@, from);
            assert(rest@.drop_first() =~= line@.skip(from));
            assert(content@ == trim_start_spec(rest@.drop_first()));
        }
    }
    Some((level, content))
}

/// The mark and the content of a list item.
fn list_of(line: &str) -> (r: Option<(String, String)>)
    ensures
        match r {
            Some((mark, content)) => list_spec(line@) == Some((mark@, content@)) && (
            escapes_complete(line@) ==> escapes_complete(content@)),
            None => list_spec(line@) is None,
        },
{
    let t = trim_start(line);
    let v = chars_of(t.as_str());
    let n: usize = v.len();
    let ghost a = line@.len() - t@.len();
    proof {
        lemma_trim_start_skip(line@);
    }
    if n >= 2 && (v[0] == '-' || v[0] == '*' || v[0] == '+') && v[1] == ' ' {
        let mark = string_of(&v, 0, 2);
        assert(mark@ =~= seq![t@[0], ' ']);
        let rest = string_of(&v, 2, n);
        assert(rest@ =~= t@.skip(2));
        let content = trim_start(rest.as_str());
        proof {
            if escapes_complete(line@) {
                assert(line@[a + 1] == t@[1]);
                assert(rest@ =~= line@.skip(a + 2));
                lemma_complete_behind_blank(line@, a + 2);
            }
        }
        return Some((mark, content));
    }
    let mut d: usize = 0;
    assert(v@.skip(0) =~= t@);
    while d < n && '0' <= v[d] && v[d] <= '9'
        invariant
            n == v@.len(),
            d <= n,
            digits_len(v@) == d + digits_len(v@.skip(d as int)),
        decreases n - d,
    {
        assert(v@.skip(d as int).drop_first() =~= v@.skip(d as int + 1));
        d += 1;
    }
    assert(digits_len(v@.skip(d as int)) == 0);
    if d > 0 && n - d >= 2 && v[d] == '.' && v[d + 1] == ' ' {
        let mark = string_of(&v, 0, d + 2);
        assert(mark@ =~= t@.take(d as int) + seq!['.', ' ']);
        let rest = string_of(&v, d + 2, n);
        assert(rest@ =~= t@.skip(d as int + 2));
        let content = trim_start(rest.as_str());
        proof {
            if escapes_complete(line@) {
                assert(line@[a + d + 1] == t@[d as int + 1]);
                assert(rest@ =~= line@.skip(a + d + 2));
                lemma_complete_behind_blank(line@, a + d + 2);
            }
        }
        return Some((mark, content));
    }
    None
}

/// Whether a line is a rule.
fn is_hr(line: &str) -> (r: bool)
    ensures
        r == is_rule(line@),
{
    let t = trim(line);
    let v = chars_of(t.as_str());
    if v.len() == 0 {
        return false;
    }
    let c = v[0];
    if c != '-' && c != '*' && c != '_' {
        return false;
    }
    let mut i: usize = 0;
    let mut marks: usize = 0;
    assert(v@.take(0).len() == 0);
    while i < v.len()
        invariant
            i <= v@.len(),
            marks <= i,
            v@ == trim_spec(line@),
            v@.len() > 0,
            c == v@[0],
            marks == times(v@.take(i as int), c),
            forall|k: int| 0 <= k < i ==> #[trigger] v@[k] == v@[0] || v@[k] == ' ' || v@[k] == '\t',
        decreases v@.len() - i,
    {
        assert(v@.take(i as int + 1).drop_last() =~= v@.take(i as int));
        if v[i] == c {
            marks += 1;
        } else if v[i] != ' ' && v[i] != '\t' {
            return false;
        }
        i += 1;
    }
    assert(v@.take(i as int) =~= v@);
    marks >= 3
}

fn mark_of(level: usize) -> (r: String)
    ensures
        r@ == header_mark(level as nat),
{
    let mut out = String::new();
    let mut i: usize = 0;
    assert(out@ =~= Seq::new(0nat, |i: int| '#'));
    while i < level
        invariant
            i <= level,
            out@ == Seq::new(i as nat, |i: int| '#'),
        decreases level - i,
    {
        out.push('#');
        assert(Seq::new(i as nat + 1, |i: int| '#') =~= Seq::new(i as nat, |i: int| '#').push('#'));
        i += 1;
    }
    out.push(' ');
    out
}

/// Adds `spans`, with `over` laid over each of them, to a line that begins with
/// `first`.
fn line_with(first: Span, spans: Vec<Span>, over: Style, style: Style) -> (r: Line)
    ensures
        r@ == (LineView {
            spans: seq![first@] + restyled(span_views(spans@), over),
            style,
        }),
{
    let mut out: Vec<Span> = Vec::new();
    out.push(first);
    let mut i: usize = 0;
    assert(span_views(out@) =~= seq![first@] + restyled(span_views(spans@).take(0), over));
    while i < spans.len()
        invariant
            i <= spans@.len(),
            span_views(out@) == seq![first@] + restyled(span_views(spans@).take(i as int), over),
        decreases spans@.len() - i,
    {
        let ghost before = out@;
        let sp = Span::styled(spans[i].content.clone(), spans[i].style.patch(over));
        out.push(sp);
        proof {
            let all = span_views(spans@);
            assert(span_views(out@) =~= span_views(before).push(sp@));
            assert(sp@.content == all[i as int].content);
            assert(sp@ == restyled(all.take(i as int + 1), over)[i as int]);
            assert(span_views(out@) =~= seq![first@] + restyled(all.take(i as int + 1), over));
        }
        i += 1;
    }
    assert(span_views(spans@).take(spans@.len() as int) =~= span_views(spans@));
    Line { spans: out, style }
}

proof fn lemma_restyled_plain(spans: Seq<SpanView>)
    ensures
        restyled(spans, no_style()) == spans,
{
    assert forall|i: int| 0 <= i < spans.len() implies restyled(spans, no_style())[i]
        == spans[i] by {
        assert(patched(spans[i].style, no_style()) == spans[i].style);
    }
    assert(restyled(spans, no_style()) =~= spans);
}

fn fence(line: &str) -> (r: Line)
    requires
        is_fence(line@),
    ensures
        r@ == fence_line(line@),
{
    let t = trim_start(line);
    let v = chars_of(t.as_str());
    let rest = string_of(&v, 3, v.len());
    assert(rest@ =~= t@.skip(3));
    let lang = trim(rest.as_str());
    let mut spans: Vec<Span> = Vec::new();
    spans.push(Span::styled("```".to_string(), dim()));
    if !lang.as_str().is_empty() {
        let mut label = " ".to_string();
        label.append(lang.as_str());
        spans.push(Span::styled(label, dim()));
    }
    let r = Line::of(spans);
    assert(r@.spans =~= fence_line(line@).spans);
    r
}

fn prose(line: &str) -> (r: Line)
    requires
        escapes_complete(line@),
    ensures
        r@ == prose_line(line@),
{
    if let Some((level, content)) = header_of(line) {
        let mark = Span::styled(mark_of(level), dim());
        return line_with(
            mark,
            inline_spans(content.as_str()),
            bold(),
            Style::color(header_color(level)),
        );
    }
    proof {
        reveal_strlit("> ");
        assert("> "@ =~= seq!['>', ' ']);
    }
    if let Some(content) = strip_prefix(line, "> ") {
        proof {
            assert(line@.take(2) == "> "@);
            assert(line@.take(2)[1] == line@[1]);
            lemma_tail_suffix(line@, 2);
        }
        let mark = Span::styled("▍".to_string(), Style::color(Color::Gray));
        return line_with(
            mark,
            inline_spans(content.as_str()),
            italic(),
            Style::color(Color::Gray),
        );
    }
    if is_hr(line) {
        return Line::single(Span::styled("─────".to_string(), dim()));
    }
    if let Some((mark, content)) = list_of(line) {
        let first = Span::styled(mark, bullet());
        let spans = inline_spans(content.as_str());
        proof {
            lemma_restyled_plain(span_views(spans@));
        }
        return line_with(first, spans, Style::plain(), Style::plain());
    }
    Line::of(inline_spans(line))
}

/// A whole reply as styled lines.
pub fn render(text: &str) -> (r: Vec<Line>)
    requires
        renderable(text@),
    ensures
        line_views(r@) == render_spec(text@),
{
    let raw = split(text, '\n');
    let ghost all = texts(raw@);
    let mut out: Vec<Line> = Vec::new();
    let mut in_code = false;
    let mut i: usize = 0;
    assert(all.skip(0) =~= all);
    assert(line_views(out@) + lines_shown(all, false) =~= lines_shown(all, false));
    proof {
        reveal_strlit("```");
        assert("```"@ =~= seq!['`', '`', '`']);
    }
    while i < raw.len()
        invariant
            i <= raw@.len(),
            all == texts(raw@),
            "```"@ == seq!['`', '`', '`'],
            lines_complete(all.skip(i as int), in_code),
            line_views(out@) + lines_shown(all.skip(i as int), in_code) == lines_shown(all, false),
        decreases raw@.len() - i,
    {
        let line = trim_end(raw[i].as_str());
        let ghost rest = all.skip(i as int);
        let ghost before = line_views(out@);
        let ghost was = in_code;
        assert(rest[0] == raw@[i as int]@);
        assert(rest.drop_first() =~= all.skip(i as int + 1));
        let shown = if starts_with(trim_start(line.as_str()).as_str(), "```") {
            in_code = !in_code;
            fence(line.as_str())
        } else if in_code {
            Line::single(Span::styled(raw[i].clone(), code()))
        } else {
            prose(line.as_str())
        };
        out.push(shown);
        proof {
            assert(line_views(out@) =~= before.push(shown@));
            assert(lines_shown(rest, was) =~= seq![shown@] + lines_shown(
                rest.drop_first(),
                in_code,
            ));
            assert(line_views(out@) + lines_shown(rest.drop_first(), in_code) =~= before + (
            seq![shown@] + lines_shown(rest.drop_first(), in_code)));
        }
        i += 1;
    }
    assert(all.skip(i as int).len() == 0);
    assert(line_views(out@) + lines_shown(all.skip(i as int), in_code) =~= line_views(out@));
    out
}

fn escapes_ok(s: &str) -> (r: bool)
    ensures
        r == escapes_complete(s@),
{
    let v = chars_of(s);
    let mut i: usize = v.len();
    let mut even = true;
    assert(v@.take(v@.len() as int) =~= v@);
    while i > 0 && v[i - 1] == '\\'
        invariant
            i <= v@.len(),
            even == ((tail_backslashes(v@) - tail_backslashes(v@.take(i as int))) % 2 == 0),
        decreases i,
    {
        assert(v@.take(i as int).drop_last() =~= v@.take(i as int - 1));
        even = !even;
        i -= 1;
    }
    assert(tail_backslashes(v@.take(i as int)) == 0);
    even
}

/// Whether `render` accepts a text.
pub fn can_render(text: &str) -> (r: bool)
    ensures
        r == renderable(text@),
{
    let raw = split(text, '\n');
    let ghost all = texts(raw@);
    let mut in_code = false;
    let mut i: usize = 0;
    assert(all.skip(0) =~= all);
    proof {
        reveal_strlit("```");
        assert("```"@ =~= seq!['`', '`', '`']);
    }
    while i < raw.len()
        invariant
            i <= raw@.len(),
            all == texts(raw@),
            all == split_spec(text@, '\n'),
            "```"@ == seq!['`', '`', '`'],
            lines_complete(all, false) == lines_complete(all.skip(i as int), in_code),
        decreases raw@.len() - i,
    {
        let line = trim_end(raw[i].as_str());
        let ghost rest = all.skip(i as int);
        assert(rest[0] == raw@[i as int]@);
        assert(rest.drop_first() =~= all.skip(i as int + 1));
        if starts_with(trim_start(line.as_str()).as_str(), "```") {
            in_code = !in_code;
        } else if !in_code && !escapes_ok(line.as_str()) {
            return false;
        }
        i += 1;
    }
    assert(all.skip(i as int).len() == 0);
    true
}

/// A text is shown line by line: one line for each.
pub proof fn one_line_for_each(raw: Seq<Seq<char>>, in_code: bool)
    ensures
        lines_shown(raw, in_code).len() == raw.len(),
    decreases raw.len(),
{
    if raw.len() > 0 {
        one_line_for_each(raw.drop_first(), false);
        one_line_for_each(raw.drop_first(), true);
    }
}

proof fn trim_end_keeps_the_first(s: Seq<char>)
    ensures
        trim_end_spec(s).len() > 0 ==> s.len() > 0 && trim_end_spec(s)[0] == s[0],
    decreases s.len(),
{
    if s.len() > 0 && is_white(s.last()) {
        trim_end_keeps_the_first(s.drop_last());
    }
}

/// Three or more marks with blanks between them at most are a rule, never an item
/// of a list.
pub proof fn rules_are_no_items(line: Seq<char>)
    requires
        is_rule(line),
    ensures
        prose_line(line) == (LineView {
            spans: seq![SpanView { content: "─────"@, style: dim_style() }],
            style: no_style(),
        }),
{
    let t = trim_start_spec(line);
    trim_end_keeps_the_first(t);
    assert(trim_spec(line).len() > 0);
    assert(t[0] == trim_spec(line)[0]);
    assert(hashes(t) == 0);
    if let Some(content) = strip_prefix_spec(line, seq!['>', ' ']) {
        assert(line.take(2)[0] == line[0]);
        assert(t == line);
    }
}

/// Whether code is on before a line.
pub open spec fn code_on(raw: Seq<Seq<char>>, in_code: bool, i: int) -> bool
    decreases i,
{
    if i <= 0 {
        in_code
    } else {
        let before = code_on(raw, in_code, i - 1);
        if is_fence(trim_end_spec(raw[i - 1])) {
            !before
        } else {
            before
        }
    }
}

proof fn code_on_shift(raw: Seq<Seq<char>>, in_code: bool, i: int)
    requires
        0 < i <= raw.len(),
    ensures
        code_on(raw, in_code, i) == code_on(
            raw.drop_first(),
            if is_fence(trim_end_spec(raw[0])) {
                !in_code
            } else {
                in_code
            },
            i - 1,
        ),
    decreases i,
{
    reveal_with_fuel(code_on, 2);
    if i > 1 {
        code_on_shift(raw, in_code, i - 1);
        assert(raw.drop_first()[i - 2] == raw[i - 1]);
    }
}

/// Code is kept as it is: a line between fences is shown as one span of the code
/// style that holds exactly that line.
pub proof fn code_is_kept(raw: Seq<Seq<char>>, in_code: bool, i: int)
    requires
        0 <= i < raw.len(),
        code_on(raw, in_code, i),
        !is_fence(trim_end_spec(raw[i])),
    ensures
        lines_shown(raw, in_code)[i] == (LineView {
            spans: seq![SpanView { content: raw[i], style: code_style() }],
            style: no_style(),
        }),
    decreases raw.len(),
{
    one_line_for_each(raw.drop_first(), false);
    one_line_for_each(raw.drop_first(), true);
    if i > 0 {
        let now = if is_fence(trim_end_spec(raw[0])) {
            !in_code
        } else {
            in_code
        };
        code_on_shift(raw, in_code, i);
        assert(raw.drop_first()[i - 1] == raw[i]);
        code_is_kept(raw.drop_first(), now, i - 1);
    }
}

/// Outside code a text that has nothing to interpret is shown as it is.
pub proof fn plain_text_is_kept(s: Seq<char>, plain: Seq<char>)
    requires
        s.len() + plain.len() > 0,
        forall|k: int|
            0 <= k < s.len() ==> (#[trigger] s[k]) != '\\' && s[k] != '*' && s[k] != '_' && s[k]
                != '`' && s[k] != '[',
    ensures
        inline_spec(s, plain) == seq![SpanView { content: plain + s, style: no_style() }],
    decreases s.len(),
{
    if s.len() == 0 {
        assert(plain + s =~= plain);
    } else {
        assert(s[0] != '\\');
        let rest = s.drop_first();
        assert forall|k: int| 0 <= k < rest.len() implies (#[trigger] rest[k]) != '\\' && rest[k]
            != '*' && rest[k] != '_' && rest[k] != '`' && rest[k] != '[' by {
            assert(s[k + 1] != '\\');
        }
        plain_text_is_kept(rest, plain.push(s[0]));
        assert(plain.push(s[0]) + rest =~= plain + s);
    }
}

}  // verus!
