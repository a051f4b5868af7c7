use localai::tui::markdown::{can_render, inline_spans, render};
use localai::tui::style::{Color, Style};

#[test]
fn inline_bold_italic_code_and_escape() {
    let lines = render("**粗体** 与 `代码` 与 *斜体* 与 \\*字面\\*");
    assert_eq!(lines.len(), 1);
    let spans = &lines[0].spans;
    assert!(spans[0].style.bold);
    assert_eq!(spans[0].content, "粗体");
    assert!(spans[1].content.contains("与"));
    assert_eq!(spans[2].content, "代码");
    assert!(spans[2].style.fg.is_some(), "行内代码应有前景色");
    assert!(spans[3].content.contains("与"));
    assert!(spans[4].style.italic);
    assert!(spans[5].content.contains("*字面*"), "转义星号应按字面输出");
}

#[test]
fn headers_and_lists_and_quote() {
    let lines = render("# 标题\n## 小节\n- 项一\n1. 有序\n> 引用");
    assert_eq!(lines.len(), 5);
    assert!(lines[0].spans[0].content.contains('#'));
    assert!(lines[0].spans[1].style.bold);
    assert!(lines[1].spans[0].content.contains("##"));
    assert_eq!(lines[2].spans[0].content, "- ", "列表标记");
    assert_eq!(lines[3].spans[0].content, "1. ", "有序列表标记");
    assert_eq!(lines[4].spans[0].content, "▍", "引用标记");
}

#[test]
fn code_block_keeps_content_and_restores() {
    let lines = render("```rust\nfn main() { let s = \"x\"; }\n```\n后文");
    assert_eq!(lines.len(), 4);
    assert!(lines[0].spans[0].content.contains("```"));
    assert!(lines[1].spans[0].content.contains("fn main()"));
    assert!(lines[1].spans[0].style.fg.is_some(), "代码块内容应有颜色");
    assert!(!lines[2].spans[0].style.bold);
    assert!(lines[3].spans[0].content.contains("后文"), "围栏结束后恢复普通解析");
}

#[test]
fn hr_and_empty_lines() {
    let lines = render("---\n\n正文");
    assert_eq!(lines.len(), 3);
    assert!(lines[0].spans[0].content.contains('─'));
    assert!(lines[1].spans.is_empty());
    assert!(lines[2].spans[0].content.contains("正文"));
}

#[test]
fn code_is_shown_as_it_stands() {
    let lines = render("```\n  if x:\n    **y**  \n```");
    let shown: Vec<&str> = lines[1..3].iter().map(|l| l.spans[0].content.as_str()).collect();
    assert_eq!(shown, vec!["  if x:", "    **y**  "]);
    assert!(!lines[2].spans[0].style.bold);
}

#[test]
fn links_show_their_text() {
    let spans = inline_spans("看[文档](http://x)吧");
    let texts: Vec<&str> = spans.iter().map(|s| s.content.as_str()).collect();
    assert_eq!(texts, vec!["看", "文档", "吧"]);
    assert!(spans[1].style.underlined);
    let open: String = inline_spans("[没有").iter().map(|s| s.content.clone()).collect();
    assert_eq!(open, "[没有");
}

#[test]
fn what_is_plain_stays_plain() {
    let spans = inline_spans("hello world");
    assert_eq!(spans.len(), 1);
    assert_eq!(spans[0].content, "hello world");
    assert_eq!(spans[0].style, Style::plain());
    assert!(inline_spans("").is_empty());
}

#[test]
fn headings_need_a_blank() {
    assert!(!render("#没有空格")[0].spans[0].content.starts_with("# "));
    let joined: String =
        render("#没有空格")[0].spans.iter().map(|s| s.content.clone()).collect();
    assert_eq!(joined, "#没有空格");
    assert_eq!(render("--")[0].spans[0].content, "--");
}

#[test]
fn any_text_of_some_length_can_be_shown() {
    assert!(can_render("# a\n**b"));
    assert!(can_render(""));
    assert!(render("").len() <= 1);
    assert_eq!(Style::color(Color::Cyan).fg, Some(Color::Cyan));
}

#[test]
fn rules_may_hold_blanks() {
    for text in ["* * *", "- - -", "  ***", "_ _ _", "-- -", "* *\t*"] {
        let lines = render(text);
        assert_eq!(lines.len(), 1);
        assert_eq!(lines[0].spans.len(), 1, "{text:?}");
        assert_eq!(lines[0].spans[0].content, "─────", "{text:?}");
    }
    assert_eq!(render("* *")[0].spans[0].content, "* ");
    assert_eq!(render("* * x *")[0].spans[0].content, "* ");
}
