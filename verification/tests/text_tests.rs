use vtt_builder::decimal::{decimal_len, push_decimal, push_padded, push_signed};
use vtt_builder::error::{cue_error, header_error, timestamp_error, validation_error, ErrorKind, VttError};
use vtt_builder::letters::{lower, same_letters_exec, word_char};
use vtt_builder::lines::split_lines;
use vtt_builder::search::{contains, find_from, replace, starts_with_at};
use vtt_builder::text::{
    chars_of, chars_of_all, collapse, is_blank, is_digit, is_whitespace, join, split_words, string_of, trim,
    trim_bounds,
};

fn cs(s: &str) -> Vec<char> {
    s.chars().collect()
}

fn st(v: &Vec<char>) -> String {
    v.iter().collect()
}

#[test]
fn strings_and_characters() {
    assert_eq!(chars_of("héllo ✓"), cs("héllo ✓"));
    assert_eq!(chars_of(""), Vec::<char>::new());
    assert_eq!(string_of(&cs("héllo ✓")), "héllo ✓");
    assert_eq!(string_of(&Vec::new()), "");
}

#[test]
fn white_space_is_what_the_standard_library_says() {
    for u in 0..=0x11_0000u32 {
        if let Some(c) = char::from_u32(u) {
            assert_eq!(is_whitespace(c), c.is_whitespace(), "{:x}", u);
            assert_eq!(is_digit(c), c.is_ascii_digit(), "{:x}", u);
            assert_eq!(lower(c), c.to_ascii_lowercase(), "{:x}", u);
            assert_eq!(word_char(c), c.is_ascii_alphanumeric() || c == '_', "{:x}", u);
        }
    }
}

#[test]
fn trimming() {
    for s in ["", " ", "a", " a", "a ", "  a b  ", "\t\n a\u{00A0}b \r\n", "\u{3000}x\u{2003}", "   \n "] {
        assert_eq!(st(&trim(&cs(s))), s.trim(), "{:?}", s);
        assert_eq!(is_blank(&cs(s)), s.trim().is_empty(), "{:?}", s);
        let (a, b) = trim_bounds(&cs(s));
        assert_eq!(cs(s)[a..b].iter().collect::<String>(), s.trim());
    }
}

#[test]
fn words_and_joining() {
    for s in ["", " ", "one", " one  two\tthree\n", "a\u{00A0}b", "  x  "] {
        let words: Vec<String> = split_words(&cs(s)).iter().map(st).collect();
        let expected: Vec<&str> = s.split_whitespace().collect();
        assert_eq!(words, expected, "{:?}", s);
        assert_eq!(st(&collapse(&cs(s))), expected.join(" "));
    }
    assert_eq!(st(&join(&vec![cs("a"), cs(""), cs("bc")], &cs(", "))), "a, , bc");
    assert_eq!(st(&join(&vec![cs("a")], &cs(", "))), "a");
    assert_eq!(st(&join(&Vec::new(), &cs(", "))), "");
}

#[test]
fn lines_are_what_the_standard_library_says() {
    for s in ["", "\n", "a", "a\n", "a\nb", "a\r\nb\r\n", "a\n\nb", "\n\n", "a\r", "a\r\n", "\r\n", "x\r\r\ny", "a\rb\nc"] {
        let lines: Vec<String> = split_lines(&cs(s)).iter().map(st).collect();
        let expected: Vec<&str> = s.lines().collect();
        assert_eq!(lines, expected, "{:?}", s);
    }
}

#[test]
fn searching() {
    let text = cs("aab-->c-->");
    let arrow = cs("-->");
    assert_eq!(find_from(&text, 0, &arrow), Some(3));
    assert_eq!(find_from(&text, 3, &arrow), Some(3));
    assert_eq!(find_from(&text, 4, &arrow), Some(7));
    assert_eq!(find_from(&text, 8, &arrow), None);
    assert_eq!(find_from(&text, 10, &arrow), None);
    assert_eq!(find_from(&text, 10, &Vec::new()), Some(10));
    assert_eq!(find_from(&text, 2, &Vec::new()), Some(2));
    assert!(contains(&text, &arrow));
    assert!(!contains(&cs("-- >"), &arrow));
    assert!(contains(&cs(""), &cs("")));
    assert!(starts_with_at(&text, 7, &arrow));
    assert!(!starts_with_at(&text, 8, &arrow));
    assert!(starts_with_at(&text, 10, &Vec::new()));
}

#[test]
fn replacing() {
    for (s, from, to) in [
        ("aaa", "aa", "b"),
        ("abcabc", "bc", ""),
        ("abc", "abcd", "x"),
        ("", "a", "b"),
        ("a&b&&", "&", "&amp;"),
        ("xyx", "x", "xx"),
        ("ababab", "aba", "-"),
    ] {
        assert_eq!(st(&replace(&cs(s), &cs(from), &cs(to))), s.replace(from, to), "{:?}", (s, from, to));
    }
}

#[test]
fn numerals() {
    for n in [0u64, 1, 9, 10, 99, 100, 12_345, u32::MAX as u64, u64::MAX] {
        let mut out = cs("n=");
        push_decimal(&mut out, n);
        assert_eq!(st(&out), format!("n={}", n));
        assert_eq!(decimal_len(n), n.to_string().len());
        let mut out = Vec::new();
        push_padded(&mut out, n, 2);
        assert_eq!(st(&out), format!("{:02}", n));
        let mut out = Vec::new();
        push_padded(&mut out, n, 3);
        assert_eq!(st(&out), format!("{:03}", n));
        let mut out = Vec::new();
        push_padded(&mut out, n, 0);
        assert_eq!(st(&out), format!("{}", n));
    }
}

#[test]
fn signed_numerals() {
    for n in [0i64, 1, -1, 42, -42, i64::MAX, i64::MIN, i64::MIN + 1] {
        let mut out = cs("n=");
        push_signed(&mut out, n);
        assert_eq!(st(&out), format!("n={}", n));
    }
}

#[test]
fn strings_as_characters() {
    let list = vec!["ab".to_string(), "".to_string(), "é✓".to_string()];
    assert_eq!(chars_of_all(&list), vec![cs("ab"), cs(""), cs("é✓")]);
    assert_eq!(chars_of_all(&Vec::new()), Vec::<Vec<char>>::new());
}

#[test]
fn letters_without_case() {
    assert!(same_letters_exec(&cs("You Know"), &cs("yOU kNOW")));
    assert!(same_letters_exec(&cs(""), &cs("")));
    assert!(!same_letters_exec(&cs("a"), &cs("ab")));
    assert!(!same_letters_exec(&cs("É"), &cs("é")));
    assert!(!same_letters_exec(&cs("a-b"), &cs("a_b")));
}

#[test]
fn error_constructors() {
    let e = validation_error("wrong");
    assert_eq!(e, VttError { kind: ErrorKind::Validation, message: "wrong".to_string() });
    assert_eq!(timestamp_error("t").kind, ErrorKind::Timestamp);
    assert_eq!(header_error("h").kind, ErrorKind::Header);
    assert_eq!(cue_error("c").kind, ErrorKind::Cue);
    assert_eq!(cue_error("c").message(), "c");
    assert_eq!(e.clone(), e);
    assert_ne!(ErrorKind::Escaping, ErrorKind::Io);
}
