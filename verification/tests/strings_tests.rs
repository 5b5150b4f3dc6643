use playground_ui::strings::{
    contains_chars, ends_with_chars, find_chars, push_all, push_decimal, trim_chars, words_of, CharClass,
};
use playground_ui::text::{concat_strings, join_lines, locate_byte, split_lines, utf8_byte_len, ByteLocation};

fn chars(s: &str) -> Vec<char> {
    s.chars().collect()
}

fn text(v: &[char]) -> String {
    v.iter().collect()
}

#[test]
fn find_chars_gives_first_occurrence() {
    assert_eq!(find_chars(&chars("abcabc"), &chars("bc")), Some(1));
    assert_eq!(find_chars(&chars("abcabc"), &chars("x")), None);
    assert_eq!(find_chars(&chars("ab"), &chars("abc")), None);
    assert_eq!(find_chars(&chars("ab"), &chars("")), Some(0));
}

#[test]
fn contains_and_ends_with() {
    assert!(contains_chars(&chars("show me the function"), &chars("function")));
    assert!(!contains_chars(&chars("show me"), &chars("display")));
    assert!(ends_with_chars(&chars("main.rs"), &chars(".rs")));
    assert!(!ends_with_chars(&chars("main.rsx"), &chars(".rs")));
    assert!(!ends_with_chars(&chars("rs"), &chars(".rs")));
}

#[test]
fn trim_whitespace_both_ends() {
    assert_eq!(text(&trim_chars(&chars("  hello world \t\n"), CharClass::Whitespace)), "hello world");
    assert_eq!(text(&trim_chars(&chars("   "), CharClass::Whitespace)), "");
    // Non-breaking space is white space for `char::is_whitespace`.
    assert_eq!(text(&trim_chars(&chars("\u{00A0}x\u{2003}"), CharClass::Whitespace)), "x");
}

#[test]
fn trim_non_alphanumeric() {
    assert_eq!(text(&trim_chars(&chars("`parse_message()`"), CharClass::NotAlphanumeric)), "parse_message");
    assert_eq!(text(&trim_chars(&chars("(é1)"), CharClass::NotAlphanumeric)), "é1");
    assert_eq!(text(&trim_chars(&chars("!!"), CharClass::NotAlphanumeric)), "");
}

#[test]
fn words_split_on_any_whitespace() {
    let w = words_of(&chars("  show me\tfunction   foo\n"));
    let w: Vec<String> = w.iter().map(|x| text(x)).collect();
    assert_eq!(w, vec!["show", "me", "function", "foo"]);
    assert!(words_of(&chars("   ")).is_empty());
}

#[test]
fn decimal_rendering() {
    let mut out = chars("n=");
    push_decimal(&mut out, 0);
    assert_eq!(text(&out), "n=0");
    let mut out = Vec::new();
    push_decimal(&mut out, 1203);
    assert_eq!(text(&out), "1203");
    let mut out = Vec::new();
    push_decimal(&mut out, usize::MAX);
    assert_eq!(text(&out), usize::MAX.to_string());
    let mut out = chars("ab");
    push_all(&mut out, &chars("cd"));
    assert_eq!(text(&out), "abcd");
}

#[test]
fn lines_like_str_lines() {
    let lines = split_lines(&chars("a\r\nb\n\nc"));
    let lines: Vec<String> = lines.iter().map(|l| text(l)).collect();
    assert_eq!(lines, vec!["a", "b", "", "c"]);
    assert!(split_lines(&chars("")).is_empty());
    assert_eq!(split_lines(&chars("x\n")).len(), 1);
}

#[test]
fn join_and_concat() {
    let lines = vec![chars("one"), chars("two"), chars("three")];
    assert_eq!(join_lines(&lines, '\n'), "one\ntwo\nthree");
    assert_eq!(join_lines(&Vec::new(), '\n'), "");
    assert_eq!(concat_strings("$ ", "ls"), "$ ls");
}

#[test]
fn byte_positions() {
    let s = chars("aé€😀");
    assert_eq!(utf8_byte_len(&s), 1 + 2 + 3 + 4);
    match locate_byte(&s, 3) {
        ByteLocation::Boundary(k) => assert_eq!(k, 2),
        _ => panic!("byte 3 starts the third character"),
    }
    assert!(matches!(locate_byte(&s, 2), ByteLocation::Inside));
    assert!(matches!(locate_byte(&s, 10), ByteLocation::AtEnd));
    assert!(matches!(locate_byte(&s, 0), ByteLocation::Boundary(0)));
}
