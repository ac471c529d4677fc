use farthinder::number::{decimal, parse_port};
use farthinder::order::{at_most, sort};
use farthinder::text::{
    after_last, find_from, join, lines, mentions, same, same_ignoring_case, split, starts,
    strip_end, to_chars, trim, words,
};

fn strings(list: &[&str]) -> Vec<String> {
    list.iter().map(|s| s.to_string()).collect()
}

#[test]
fn lines_like_the_standard_library() {
    for s in ["", "a", "a\n", "a\n\n", "\na", "a\r\nb", "a\r", "a\r\r\nb\n", "\r\n", "a\nb\r"] {
        let expected: Vec<String> = s.lines().map(|l| l.to_string()).collect();
        assert_eq!(lines(s), expected, "{s:?}");
    }
}

#[test]
fn words_like_the_standard_library() {
    for s in ["", " ", "a", " a\tb\u{a0}c\u{3000}", "a\u{200b}b", "CONNECT a:1 HTTP/1.1\r\n"] {
        let expected: Vec<String> = s.split_whitespace().map(|l| l.to_string()).collect();
        assert_eq!(words(s), expected, "{s:?}");
    }
}

#[test]
fn spaces_like_the_standard_library() {
    for code in 0..0x11_0000u32 {
        if let Some(c) = char::from_u32(code) {
            assert_eq!(farthinder::text::space(c), c.is_whitespace(), "{code:x}");
        }
    }
}

#[test]
fn pieces_like_the_standard_library() {
    for s in ["", ":", "a", "a:b", ":a::b:"] {
        let expected: Vec<String> = s.split(':').map(|l| l.to_string()).collect();
        assert_eq!(split(s, ':'), expected, "{s:?}");
    }
    assert_eq!(trim(" \t a b \n"), "a b");
    assert_eq!(trim("  "), "");
}

#[test]
fn searches() {
    assert!(mentions("text/html; charset", "html"));
    assert!(!mentions("text/htm", "html"));
    assert!(mentions("", ""));
    assert!(starts("abc", "ab"));
    assert!(!starts("a", "ab"));
    assert_eq!(strip_end("a.whl", ".whl").as_deref(), Some("a"));
    assert_eq!(strip_end("whl", ".whl"), None);
    assert_eq!(find_from(&to_chars("a-b-c"), 2, '-'), 3);
    assert_eq!(find_from(&to_chars("abc"), 0, '-'), 3);
    assert_eq!(after_last(&to_chars("a-b-c"), '-'), 4);
    assert_eq!(after_last(&to_chars("abc"), '-'), 0);
    assert!(same("\u{e4}", "\u{e4}"));
    assert!(!same("a", "ab"));
    assert!(same_ignoring_case("NPM", "npm"));
    assert!(!same_ignoring_case("\u{c4}", "\u{e4}"));
}

#[test]
fn orders_like_the_standard_library() {
    let all = ["", "a", "ab", "b", "B", "10", "9", "\u{e4}", "\u{1f600}", "\u{ffff}"];
    for a in all {
        for b in all {
            assert_eq!(at_most(a, b), a <= b, "{a:?} {b:?}");
        }
    }
    let mut expected = strings(&all);
    expected.sort();
    assert_eq!(sort(&strings(&all)), expected);
}

#[test]
fn joins() {
    assert_eq!(join(&strings(&["a", "", "b"]), ", "), "a, , b");
    assert_eq!(join(&vec![], ", "), "");
}

#[test]
fn numbers() {
    for n in [0, 9, 10, 99, 100, 65535, usize::MAX] {
        assert_eq!(decimal(n), n.to_string());
    }
    for s in ["", "0", "65535", "65536", "+1", "++1", "-1", "007", "1a", " 1", "99999999999"] {
        assert_eq!(parse_port(s), s.parse::<u16>().ok(), "{s:?}");
    }
}
