use rsp::text::{
    chars_eq, chars_lt, chars_of, contains, decimal_string, is_blank, is_space_char, join_strings,
    lines_of, lower_char, lower_chars, parse_checked, parse_u16, parse_u32, ParseFailure, starts_with, str_contains, str_eq,
    str_lt, string_of, sub_chars, trim_chars, trimmed, words_of,
};

fn chars(s: &str) -> Vec<char> {
    s.chars().collect()
}

fn texts(v: &[Vec<char>]) -> Vec<String> {
    v.iter().map(|w| w.iter().collect()).collect()
}

#[test]
fn string_of_keeps_every_character() {
    assert_eq!(string_of(&chars("héllo wörld")), "héllo wörld");
    assert_eq!(string_of(&Vec::new()), "");
    assert_eq!(chars_of("a→b"), vec!['a', '→', 'b']);
}

#[test]
fn trim_matches_str_trim() {
    for s in ["  a b  ", "\t\nx\r\n", "", "   ", "\u{a0}y\u{2003}", "z"] {
        assert_eq!(trimmed(s), s.trim());
        assert_eq!(string_of(&trim_chars(&chars(s))), s.trim());
        assert_eq!(is_blank(s), s.trim().is_empty());
    }
    assert!(is_space_char('\u{3000}'));
    assert!(!is_space_char('x'));
}

#[test]
fn comparisons_match_str() {
    assert!(str_eq("abc", "abc"));
    assert!(!str_eq("abc", "abd"));
    assert!(chars_eq(&chars("x"), &chars("x")));
    assert!(str_lt("abc", "abd"));
    assert!(str_lt("ab", "abc"));
    assert!(!str_lt("abc", "abc"));
    assert!(!str_lt("b", "a"));
    assert!(chars_lt(&chars("Z"), &chars("a")));
}

#[test]
fn searching_text() {
    assert!(starts_with(&chars("localforward 1"), &chars("localforward ")));
    assert!(!starts_with(&chars("local"), &chars("localforward")));
    assert!(contains(&chars("kill: 12: No such process"), &chars("No such")));
    assert!(!contains(&chars("abc"), &chars("abd")));
    assert!(contains(&chars("abc"), &chars("")));
    assert!(str_contains("/usr/bin/ssh -N", "ssh"));
    assert_eq!(string_of(&sub_chars(&chars("abcdef"), 1, 4)), "bcd");
}

#[test]
fn lowering_is_ascii_only() {
    assert_eq!(lower_char('A'), 'a');
    assert_eq!(lower_char('É'), 'É');
    assert_eq!(string_of(&lower_chars(&chars("No Such PROCESS"))), "no such process");
}

#[test]
fn lines_and_words_split_like_str() {
    let text = "first\r\nsecond\n\nlast";
    assert_eq!(texts(&lines_of(&chars(text))), vec!["first", "second", "", "last"]);
    assert_eq!(texts(&lines_of(&chars("a\n"))), vec!["a"]);
    assert_eq!(texts(&lines_of(&chars("x\nbaz\r"))), vec!["x", "baz\r"]);
    assert!(lines_of(&chars("")).is_empty());
    assert_eq!(texts(&words_of(&chars("  Host  a\tb  "))), vec!["Host", "a", "b"]);
    assert!(words_of(&chars("   ")).is_empty());
}

#[test]
fn parsing_numbers_like_from_str() {
    assert_eq!(parse_u16(&chars("8080")), Some(8080));
    assert_eq!(parse_u16(&chars("+42")), Some(42));
    assert_eq!(parse_u16(&chars("65535")), Some(65535));
    assert_eq!(parse_u16(&chars("65536")), None);
    assert_eq!(parse_u16(&chars("")), None);
    assert_eq!(parse_u16(&chars("+")), None);
    assert_eq!(parse_u16(&chars("-1")), None);
    assert_eq!(parse_u16(&chars("12a")), None);
    assert_eq!(parse_u16(&chars(" 1")), None);
    assert_eq!(parse_u32(&chars("4294967295")), Some(4294967295));
    assert_eq!(parse_u32(&chars("4294967296")), None);
    assert_eq!(parse_u32(&chars("00017")), Some(17));
}

#[test]
fn decimal_writes_like_display() {
    assert_eq!(decimal_string(0), "0");
    assert_eq!(decimal_string(7), "7");
    assert_eq!(decimal_string(3306), "3306");
    assert_eq!(decimal_string(4294967295), "4294967295");
    for n in [0u32, 9, 10, 99, 100, 65535] {
        assert_eq!(parse_u32(&chars(&decimal_string(n))), Some(n));
    }
}

#[test]
fn joining_strings() {
    let v = vec!["a".to_string(), "b".to_string(), "c".to_string()];
    assert_eq!(join_strings(&v, ", "), "a, b, c");
    assert_eq!(join_strings(&vec!["x".to_string()], " "), "x");
    assert_eq!(join_strings(&Vec::new(), ","), "");
}

#[test]
fn parse_failures_like_parse_int_error() {
    let p = |s: &str| parse_checked(&chars(s), 65535);
    assert_eq!(p("80"), Ok(80));
    assert_eq!(p("+80"), Ok(80));
    assert_eq!(p(""), Err(ParseFailure::Empty));
    assert_eq!(p("+"), Err(ParseFailure::InvalidDigit));
    assert_eq!(p("-1"), Err(ParseFailure::InvalidDigit));
    assert_eq!(p("12x"), Err(ParseFailure::InvalidDigit));
    assert_eq!(p("65536"), Err(ParseFailure::PosOverflow));
    assert_eq!(p("999999x"), Err(ParseFailure::PosOverflow));
    for s in ["", "+", "-1", "12x", "65536", "999999x", "7"] {
        let mine = p(s).map(|v| v as u16).map_err(|e| e.message());
        let std_result = s.parse::<u16>().map_err(|e| e.to_string());
        assert_eq!(mine, std_result);
    }
}
