//! Text helpers, against the standard library's.

use draug::text::{
    chars_of, find, lines, parse_i64, parse_u64, push_decimal, push_padded, push_signed, push_truth,
    split, text_of, to_lower, to_upper, trim, words,
};

const TEXTS: [&str; 14] = [
    "",
    " ",
    "a",
    " a b\tc ",
    "\u{a0}x\u{2003}y\u{3000}",
    "one\ntwo\r\nthree",
    "\n",
    "\r\n",
    "a\n\nb\n",
    "a\rb\r",
    "x,y,,z",
    ",",
    "\u{200b}zero width",
    "a - b - c",
];

fn strings(v: &[&[char]]) -> Vec<String> {
    v.iter().map(|s| text_of(s)).collect()
}

#[test]
fn splits_like_the_standard_library() {
    for t in TEXTS {
        let c = chars_of(t);
        let own = |v: Vec<&str>| v.iter().map(|s| s.to_string()).collect::<Vec<_>>();
        assert_eq!(text_of(trim(&c)), t.trim(), "{t:?}");
        assert_eq!(strings(&words(&c)), own(t.split_whitespace().collect()), "{t:?}");
        assert_eq!(strings(&lines(&c)), own(t.lines().collect()), "{t:?}");
        assert_eq!(strings(&split(&c, ',')), own(t.split(',').collect()), "{t:?}");
        let pattern = chars_of(" - ");
        assert_eq!(
            find(&c, &pattern).map(|n| text_of(&c[..n])),
            t.split_once(" - ").map(|(a, _)| a.to_string()),
            "{t:?}"
        );
    }
}

#[test]
fn numbers_parse_like_the_standard_library() {
    for t in [
        "", "+", "-", "0", "007", "+5", "-5", "5 ", "1_0", "++1", "+-1", "-+1",
        "18446744073709551615", "18446744073709551616", "9223372036854775807",
        "9223372036854775808", "-9223372036854775808", "-9223372036854775809", "-0",
        "99999999999999999999999999999999",
        "\u{661}",
    ] {
        let c = chars_of(t);
        assert_eq!(parse_u64(&c), t.parse::<u64>().ok(), "{t:?}");
        assert_eq!(parse_i64(&c), t.parse::<i64>().ok(), "{t:?}");
    }
}

#[test]
fn numbers_are_written_like_the_standard_library() {
    for n in [0, 9, 10, 99, 100, 12345678901234567890, u64::MAX] {
        let mut s = String::new();
        push_decimal(&mut s, n);
        assert_eq!(s, n.to_string());
        let mut s = String::new();
        push_padded(&mut s, n, 4);
        assert_eq!(s, format!("{n:04}"));
    }
    for n in [0, -1, 7, i32::MIN, i32::MAX] {
        let mut s = String::new();
        push_signed(&mut s, n);
        assert_eq!(s, n.to_string());
    }
    let mut s = String::new();
    push_truth(&mut s, true);
    push_truth(&mut s, false);
    assert_eq!(s, "truefalse");
}

#[test]
fn letter_case_is_ascii() {
    let c = chars_of("aZ\u{e9}\u{df}9");
    assert_eq!(text_of(&to_upper(&c)), "AZ\u{e9}\u{df}9");
    assert_eq!(text_of(&to_lower(&c)), "az\u{e9}\u{df}9");
}
