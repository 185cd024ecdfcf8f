use shell_engine::text::{
    chars_of, copy_texts, copy_texts_from, decimal_string, join, parse_count, parse_i32,
    replace_char, same_text, split_on, starts_with, string_of, trim, words,
};

fn strings(items: &[&str]) -> Vec<String> {
    items.iter().map(|s| s.to_string()).collect()
}

#[test]
fn chars_and_back() {
    assert_eq!(chars_of("héllo"), vec!['h', 'é', 'l', 'l', 'o']);
    assert_eq!(string_of(&['h', 'é', 'y']), "héy");
    assert_eq!(string_of(&[]), "");
}

#[test]
fn same_text_compares_contents() {
    assert!(same_text("echo", "echo"));
    assert!(!same_text("echo", "echo "));
    assert!(!same_text("", "a"));
    assert!(same_text("", ""));
}

#[test]
fn copies_keep_order() {
    let items = strings(&["a", "b", "c"]);
    assert_eq!(copy_texts(&items), items);
    assert_eq!(copy_texts_from(&items, 1), strings(&["b", "c"]));
    assert_eq!(copy_texts_from(&items, 3), Vec::<String>::new());
}

#[test]
fn join_puts_separator_between() {
    assert_eq!(join(&strings(&["a", "b", "c"]), " "), "a b c");
    assert_eq!(join(&strings(&["a"]), ", "), "a");
    assert_eq!(join(&strings(&[]), ", "), "");
    assert_eq!(join(&strings(&["", ""]), "/"), "/");
    assert_eq!(join(&strings(&["", "a", "b"]), "/"), "/a/b");
}

#[test]
fn split_keeps_empty_pieces() {
    assert_eq!(split_on("a:b:c", ':'), strings(&["a", "b", "c"]));
    assert_eq!(split_on("", ':'), strings(&[""]));
    assert_eq!(split_on(":", ':'), strings(&["", ""]));
    assert_eq!(split_on("/a//b/", '/'), strings(&["", "a", "", "b", ""]));
    assert_eq!(split_on("abc", ':'), strings(&["abc"]));
}

#[test]
fn split_then_join_gives_the_text_back() {
    for text in ["", "/", "/usr/bin:/bin", "a::b:", ":::"] {
        assert_eq!(join(&split_on(text, ':'), ":"), text);
    }
}

#[test]
fn replace_every_occurrence() {
    assert_eq!(replace_char("a\nb\n", '\n', "\r\n"), "a\r\nb\r\n");
    assert_eq!(replace_char("it's", '\'', "'\\''"), "it'\\''s");
    assert_eq!(replace_char("abc", 'x', "yy"), "abc");
    assert_eq!(replace_char("aaa", 'a', ""), "");
    assert_eq!(replace_char("", 'a', "b"), "");
}

#[test]
fn starts_with_is_prefix() {
    assert!(starts_with("echo", "ec"));
    assert!(starts_with("echo", ""));
    assert!(starts_with("echo", "echo"));
    assert!(!starts_with("echo", "echoes"));
    assert!(!starts_with("echo", "ex"));
}

#[test]
fn decimal_of_numbers() {
    assert_eq!(decimal_string(0), "0");
    assert_eq!(decimal_string(7), "7");
    assert_eq!(decimal_string(10), "10");
    assert_eq!(decimal_string(905), "905");
    assert_eq!(decimal_string(65535), "65535");
    assert_eq!(decimal_string(usize::MAX), usize::MAX.to_string());
}

#[test]
fn counts_are_digits_with_optional_plus() {
    assert_eq!(parse_count("0"), Some(0));
    assert_eq!(parse_count("42"), Some(42));
    assert_eq!(parse_count("+42"), Some(42));
    assert_eq!(parse_count("007"), Some(7));
    assert_eq!(parse_count(""), None);
    assert_eq!(parse_count("+"), None);
    assert_eq!(parse_count("-1"), None);
    assert_eq!(parse_count("4 2"), None);
    assert_eq!(parse_count(" 42"), None);
    assert_eq!(parse_count("42x"), None);
    assert_eq!(parse_count("++1"), None);
}

#[test]
fn counts_stop_at_the_machine_word() {
    let max = usize::MAX.to_string();
    assert_eq!(parse_count(&max), Some(usize::MAX));
    assert_eq!(parse_count(&format!("{}0", max)), None);
    assert_eq!(parse_count("340282366920938463463374607431768211456"), None);
    assert_eq!(parse_count(&format!("000{}", max)), Some(usize::MAX));
}

#[test]
fn count_agrees_with_decimal() {
    for n in [0usize, 1, 9, 10, 99, 100, 12345, usize::MAX] {
        assert_eq!(parse_count(&decimal_string(n)), Some(n));
    }
}

#[test]
fn signed_numbers() {
    assert_eq!(parse_i32("0"), Some(0));
    assert_eq!(parse_i32("-0"), Some(0));
    assert_eq!(parse_i32("17"), Some(17));
    assert_eq!(parse_i32("+17"), Some(17));
    assert_eq!(parse_i32("-17"), Some(-17));
    assert_eq!(parse_i32("2147483647"), Some(i32::MAX));
    assert_eq!(parse_i32("-2147483648"), Some(i32::MIN));
    assert_eq!(parse_i32("2147483648"), None);
    assert_eq!(parse_i32("-2147483649"), None);
    assert_eq!(parse_i32("00000000000000000012"), Some(12));
    assert_eq!(parse_i32("99999999999999999999999"), None);
    assert_eq!(parse_i32(""), None);
    assert_eq!(parse_i32("-"), None);
    assert_eq!(parse_i32("+"), None);
    assert_eq!(parse_i32("1a"), None);
    assert_eq!(parse_i32("--1"), None);
}

#[test]
fn trim_removes_whitespace_at_both_ends() {
    assert_eq!(trim("  a b \t\r\n"), "a b");
    assert_eq!(trim("a"), "a");
    assert_eq!(trim(" \n "), "");
    assert_eq!(trim(""), "");
    assert_eq!(trim("\u{a0}x\u{2003}"), "x");
    assert_eq!(trim("x y"), "x y");
}

#[test]
fn words_are_runs_between_whitespace() {
    assert_eq!(words("exit  3\t now"), strings(&["exit", "3", "now"]));
    assert_eq!(words("   "), Vec::<String>::new());
    assert_eq!(words(""), Vec::<String>::new());
    assert_eq!(words("one"), strings(&["one"]));
    assert_eq!(words(" a\nb "), strings(&["a", "b"]));
}

fn has_white_space(c: char) -> bool {
    matches!(
        c,
        '\u{9}'..='\u{d}'
            | ' '
            | '\u{85}'
            | '\u{a0}'
            | '\u{1680}'
            | '\u{2000}'..='\u{200a}'
            | '\u{2028}'
            | '\u{2029}'
            | '\u{202f}'
            | '\u{205f}'
            | '\u{3000}'
    )
}

#[test]
fn whitespace_is_the_twenty_five_characters() {
    let mut count = 0;
    for c in '\0'..=char::MAX {
        let mut text = String::new();
        text.push(c);
        let trimmed_away = trim(&text).is_empty();
        assert_eq!(trimmed_away, has_white_space(c), "character {:?}", c);
        if trimmed_away {
            count += 1;
        }
    }
    assert_eq!(count, 25);
}

#[test]
fn words_split_at_every_kind_of_whitespace() {
    assert_eq!(
        words("a\u{9}b\u{b}c\u{c}d\u{85}e\u{1680}f\u{2028}g\u{3000}h"),
        strings(&["a", "b", "c", "d", "e", "f", "g", "h"])
    );
    assert_eq!(words("a\u{200b}b\u{180e}c\u{feff}d"), strings(&["a\u{200b}b\u{180e}c\u{feff}d"]));
}
