use osc_commands::text::{
    append, chars_of, is_whitespace, matches_at, push_decimal, push_signed_decimal, replace_all,
    string_of, trim,
};

fn decimal_of(n: u64) -> String {
    let mut out = Vec::new();
    push_decimal(&mut out, n);
    string_of(&out)
}

fn signed_decimal_of(n: i64) -> String {
    let mut out = Vec::new();
    push_signed_decimal(&mut out, n);
    string_of(&out)
}

fn replace(s: &str, from: &str, to: &str) -> String {
    string_of(&replace_all(&chars_of(s), &chars_of(from), &chars_of(to)))
}

fn trim_text(s: &str) -> String {
    string_of(&trim(&chars_of(s)))
}

#[test]
fn chars_and_strings_round_trip() {
    assert_eq!(chars_of("héllo"), vec!['h', 'é', 'l', 'l', 'o']);
    assert_eq!(string_of(&vec!['a', 'ß', '語']), "aß語");
    assert_eq!(string_of(&chars_of("")), "");
}

#[test]
fn append_adds_at_the_end() {
    let mut out = vec!['a', 'b'];
    append(&mut out, &vec!['c', 'd']);
    assert_eq!(out, vec!['a', 'b', 'c', 'd']);
    append(&mut out, &Vec::new());
    assert_eq!(out, vec!['a', 'b', 'c', 'd']);
}

#[test]
fn decimal_of_small_and_large_numbers() {
    assert_eq!(decimal_of(0), "0");
    assert_eq!(decimal_of(7), "7");
    assert_eq!(decimal_of(10), "10");
    assert_eq!(decimal_of(255), "255");
    assert_eq!(decimal_of(4294967295), "4294967295");
    assert_eq!(decimal_of(u64::MAX), "18446744073709551615");
}

#[test]
fn decimal_agrees_with_std() {
    let mut n: u64 = 1;
    for _ in 0..64 {
        assert_eq!(decimal_of(n), n.to_string());
        assert_eq!(decimal_of(n - 1), (n - 1).to_string());
        n = n.wrapping_mul(2);
    }
}

#[test]
fn signed_decimal_of_both_signs() {
    assert_eq!(signed_decimal_of(0), "0");
    assert_eq!(signed_decimal_of(-1), "-1");
    assert_eq!(signed_decimal_of(42), "42");
    assert_eq!(signed_decimal_of(-2147483648), "-2147483648");
    assert_eq!(signed_decimal_of(i64::MAX), "9223372036854775807");
    assert_eq!(signed_decimal_of(i64::MIN), "-9223372036854775808");
}

#[test]
fn matches_at_finds_the_pattern() {
    let s = chars_of("ab$0cd");
    let pat = chars_of("$0");
    assert!(matches_at(&s, &pat, 2));
    assert!(!matches_at(&s, &pat, 1));
    assert!(!matches_at(&s, &pat, 5));
    assert!(!matches_at(&s, &pat, 6));
    assert!(matches_at(&s, &Vec::new(), 6));
}

#[test]
fn replace_all_replaces_every_occurrence() {
    assert_eq!(replace("echo $0 and $0", "$0", "x"), "echo x and x");
    assert_eq!(replace("$0$0$0", "$0", "ab"), "ababab");
    assert_eq!(replace("nothing here", "$0", "x"), "nothing here");
    assert_eq!(replace("", "$0", "x"), "");
    assert_eq!(replace("$", "$0", "x"), "$");
    assert_eq!(replace("a$0", "$0", ""), "a");
}

#[test]
fn replace_all_goes_from_the_left_without_overlap() {
    assert_eq!(replace("aaaa", "aa", "b"), "bb");
    assert_eq!(replace("aaa", "aa", "b"), "ba");
    assert_eq!(replace("abab", "ab", "abab"), "abababab");
}

#[test]
fn replace_all_agrees_with_std() {
    let texts = ["", "a", "$1 $10 $1", "xx$0xx$00", "ééé$2é", "$$0$", "0$0$0$"];
    let patterns = ["$0", "$1", "$10", "é", "$", "xx"];
    let values = ["", "\"v\"", "null", "$0"];
    for t in texts {
        for p in patterns {
            for v in values {
                assert_eq!(replace(t, p, v), t.replace(p, v));
            }
        }
    }
}

#[test]
fn replace_all_with_empty_pattern_changes_nothing() {
    assert_eq!(replace("abc", "", "x"), "abc");
    assert_eq!(replace("", "", "x"), "");
}

#[test]
fn trim_removes_white_space_at_both_ends() {
    assert_eq!(trim_text("hi\n"), "hi");
    assert_eq!(trim_text("  a b \t\r\n"), "a b");
    assert_eq!(trim_text(""), "");
    assert_eq!(trim_text(" \n\t "), "");
    assert_eq!(trim_text("x"), "x");
    assert_eq!(trim_text("\u{3000}wide\u{2003}"), "wide");
    assert_eq!(trim_text("\u{200B}zero\u{200B}"), "\u{200B}zero\u{200B}");
}

#[test]
fn trim_agrees_with_std() {
    let texts = ["", " ", "a", " a", "a ", "\n\na\n b\n\n", "\u{85}x\u{A0}", "\u{1680}\u{2028}y\u{2029}\u{202F}\u{205F}"];
    for t in texts {
        assert_eq!(trim_text(t), t.trim());
    }
}

#[test]
fn white_space_agrees_with_std_on_every_character() {
    let mut code: u32 = 0;
    while code <= 0x10FFFF {
        if let Some(c) = char::from_u32(code) {
            assert_eq!(is_whitespace(c), c.is_whitespace());
        }
        code += 1;
    }
}
