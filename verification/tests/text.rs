use localai::text::clock::clock;
use localai::text::number::{decimal, parse_usize, signed};
use localai::text::order::{insert_in_order, le, sort};
use localai::text::search::{ascii_lower, contains, ends_with, starts_with, strip_prefix};
use localai::text::split::{first_word, lines, split, split_once, words};
use localai::text::trim::{strip_leading, trim, trim_end, trim_start};
use localai::text::{clip, join, pad_left, pad_right};

fn list(v: &[&str]) -> Vec<String> {
    v.iter().map(|s| s.to_string()).collect()
}

const SAMPLES: [&str; 9] =
    ["", " ", "a", "  a b  ", "\u{3000}你 好\u{a0}", "a\nb\r\n\nc", "\n", "\u{85}x\u{2028}", "x\r"];

#[test]
fn trimming_agrees_with_the_standard_library() {
    for s in SAMPLES {
        assert_eq!(trim(s), s.trim());
        assert_eq!(trim_start(s), s.trim_start());
        assert_eq!(trim_end(s), s.trim_end());
    }
    assert_eq!(strip_leading("~~/a~", '~'), "/a~");
}

#[test]
fn splitting_agrees_with_the_standard_library() {
    for s in SAMPLES {
        assert_eq!(lines(s), s.lines().collect::<Vec<_>>());
        assert_eq!(words(s), s.split_whitespace().collect::<Vec<_>>());
        assert_eq!(split(s, ' '), s.split(' ').collect::<Vec<_>>());
        assert_eq!(first_word(s).as_deref(), s.split_whitespace().next());
        assert_eq!(
            split_once(s, 'a'),
            s.split_once('a').map(|(x, y)| (x.to_string(), y.to_string()))
        );
    }
}

#[test]
fn searching_agrees_with_the_standard_library() {
    for s in ["", "a", "aab", "xaabx", "AaÄ"] {
        for p in ["", "a", "aab", "b"] {
            assert_eq!(contains(s, p), s.contains(p));
            assert_eq!(starts_with(s, p), s.starts_with(p));
            assert_eq!(ends_with(s, p), s.ends_with(p));
            assert_eq!(strip_prefix(s, p).as_deref(), s.strip_prefix(p));
        }
        assert_eq!(ascii_lower(s), s.to_ascii_lowercase());
    }
}

#[test]
fn numbers_are_written_and_read() {
    for n in [0u128, 7, 10, 999, u128::MAX] {
        assert_eq!(decimal(n), n.to_string());
    }
    for n in [0i32, -1, 42, i32::MIN, i32::MAX] {
        assert_eq!(signed(n), n.to_string());
    }
    for s in ["", "+", "0", "+5", "007", "-1", "1x", "99999999999999999999999", "18446744073709551615"]
    {
        assert_eq!(parse_usize(s), s.parse::<usize>().ok(), "{s}");
    }
    assert_eq!(clock(86_400 + 3_723), "01:02:03");
}

#[test]
fn texts_are_put_in_order() {
    let v = ["b", "", "你", "a", "ab", "B", "a"];
    let mut want = list(&v);
    want.sort();
    assert_eq!(sort(list(&v)), want);
    let mut one = list(&["a", "c"]);
    insert_in_order(&mut one, "b".to_string());
    assert_eq!(one, vec!["a", "b", "c"]);
    for a in v {
        for b in v {
            assert_eq!(le(a, b), a <= b);
        }
    }
}

#[test]
fn texts_are_joined_and_padded() {
    assert_eq!(join(&list(&["a", "b"]), ", "), "a, b");
    assert_eq!(join(&Vec::new(), ", "), "");
    assert_eq!(pad_right("你", 3), format!("{:<3}", "你"));
    assert_eq!(pad_left("ab", 4), format!("{:>4}", "ab"));
    assert_eq!(pad_left("abcd", 2), "abcd");
    assert_eq!(clip("你好吗", 2), "你好");
}
