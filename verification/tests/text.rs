use nix_reaper::numbers::{decimal, last_word, parse_i64};
use nix_reaper::style::{bold, col, cyan, dim, green, red, reset, yellow};
use nix_reaper::text::{
    chars, contains, indent, is_blank, is_blank_line, join, lines, split_once, starts_with, text, trim,
};

const SAMPLES: [&str; 16] = [
    "",
    "\n",
    "\r\n",
    "a",
    "a\n",
    "a\r",
    "a\r\nb",
    "a\r\r\nb\n\nc",
    "\n\na",
    "  a b  ",
    "\u{a0}x\u{3000}",
    " \t\r\n",
    "x -> y -> z",
    "é\nü\r\n",
    "a\u{2028}b",
    "\u{200b}a\u{200b}",
];

fn c(s: &str) -> Vec<char> {
    s.chars().collect()
}

fn s(v: &[char]) -> String {
    v.iter().collect()
}

#[test]
fn white_space_is_the_unicode_property() {
    for ch in '\0'..=char::MAX {
        assert_eq!(is_blank(ch), ch.is_whitespace(), "{:?}", ch);
    }
}

#[test]
fn trimming_takes_white_space_off_both_ends() {
    for t in SAMPLES {
        assert_eq!(s(trim(&c(t))), t.trim());
        assert_eq!(is_blank_line(&c(t)), t.trim().is_empty());
    }
    assert_eq!(s(trim(&c("  a b\t"))), "a b");
}

#[test]
fn lines_end_at_line_feeds() {
    for t in SAMPLES {
        let v = c(t);
        let got: Vec<String> = lines(&v).into_iter().map(s).collect();
        let want: Vec<String> = t.lines().map(|l| l.to_string()).collect();
        assert_eq!(got, want, "{:?}", t);
    }
    let v = c("a\r\nb\n\nc\r");
    let got: Vec<String> = lines(&v).into_iter().map(s).collect();
    assert_eq!(got, ["a", "b", "", "c\r"]);
}

#[test]
fn characters_make_the_same_text() {
    for t in SAMPLES {
        assert_eq!(text(&chars(t)), t);
    }
}

#[test]
fn splitting_takes_the_first_separator() {
    for t in SAMPLES {
        for p in [" -> ", "a", "\n", "zzzzzzzzzzzzzz", "->"] {
            let v = c(t);
            let got = split_once(&v, p).map(|(a, b)| (s(a), s(b)));
            let want = t.split_once(p).map(|(a, b)| (a.to_string(), b.to_string()));
            assert_eq!(got, want, "{:?} {:?}", t, p);
            assert_eq!(contains(&v, p), t.contains(p));
            assert_eq!(starts_with(&v, p), t.starts_with(p));
        }
    }
    let v = c("x -> y -> z");
    let (a, b) = split_once(&v, " -> ").unwrap();
    assert_eq!((s(a).as_str(), s(b).as_str()), ("x", "y -> z"));
    assert!(split_once(&c("x->y"), " -> ").is_none());
}

#[test]
fn joining_puts_separators_between() {
    let parts = vec!["a".to_string(), "".to_string(), "b".to_string()];
    assert_eq!(join(&parts, " "), "a  b");
    assert_eq!(join(&vec!["a".to_string()], " "), "a");
    assert_eq!(join(&Vec::new(), " "), "");
}

#[test]
fn indenting_sets_every_line_in() {
    assert_eq!(indent("a\nb"), "  a\n  b");
    assert_eq!(indent("a\n"), "  a");
    assert_eq!(indent("a\r\n\nb"), "  a\n  \n  b");
    assert_eq!(indent(""), "");
}

#[test]
fn decimal_writes_counts() {
    for n in [0, 1, 9, 10, 99, 100, 86400, u64::MAX - 1, u64::MAX] {
        assert_eq!(decimal(n), n.to_string());
    }
}

#[test]
fn parsing_reads_signed_integers() {
    for t in [
        "0", "-0", "+0", "7", "+7", "-7", "007", "", "+", "-", "--1", "+-1", "1a", "a", " 1", "1 ", "1_0", "٣",
        "9223372036854775807", "9223372036854775808", "-9223372036854775808", "-9223372036854775809",
        "99999999999999999999999", "00000000000000000000000000000012",
    ] {
        assert_eq!(parse_i64(&c(t)), t.parse::<i64>().ok(), "{:?}", t);
    }
}

#[test]
fn the_last_word_stands_behind_white_space() {
    for t in ["", " ", "a", "a b", "a  b  ", "\ta\u{a0}b\n", "  x"] {
        assert_eq!(last_word(&c(t)).map(s), t.split_whitespace().last().map(|w| w.to_string()), "{:?}", t);
    }
}

#[test]
fn styles_are_escape_sequences() {
    assert_eq!(col(true, "1;4"), "\x1b[1;4m");
    assert_eq!(reset(true), "\x1b[0m");
    assert_eq!(bold(true), "\x1b[1m");
    assert_eq!(dim(true), "\x1b[2m");
    assert_eq!(red(true), "\x1b[31m");
    assert_eq!(green(true), "\x1b[32m");
    assert_eq!(yellow(true), "\x1b[33m");
    assert_eq!(cyan(true), "\x1b[36m");
}

#[test]
fn styles_are_empty_without_color() {
    assert_eq!(col(false, "1"), "");
    for f in [reset, bold, dim, red, green, yellow, cyan] {
        assert_eq!(f(false), "");
    }
}
