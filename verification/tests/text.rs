use code_analyzer::text::{
    char_is_whitespace, chars_of, chars_of_all, decimal_string, join_strings, matches_at,
    slice_contains, slice_contains_any, slice_ends_with, slice_ends_with_any, slice_starts_with,
    slice_starts_with_any, trimmed,
};

fn chars(s: &str) -> Vec<char> {
    s.chars().collect()
}

#[test]
fn chars_of_gives_every_character() {
    assert_eq!(chars_of(""), Vec::<char>::new());
    assert_eq!(chars_of("abc"), vec!['a', 'b', 'c']);
    assert_eq!(chars_of("é/*\n"), vec!['é', '/', '*', '\n']);
    assert_eq!(chars_of("日本語"), vec!['日', '本', '語']);
}

#[test]
fn chars_of_all_keeps_order() {
    let all = chars_of_all(&vec!["//".to_string(), "".to_string(), "#".to_string()]);
    assert_eq!(all, vec![vec!['/', '/'], vec![], vec!['#']]);
    assert_eq!(chars_of_all(&Vec::new()), Vec::<Vec<char>>::new());
}

#[test]
fn whitespace_is_what_std_says() {
    let mut code: u32 = 0;
    while code <= 0x10FFFF {
        if let Some(c) = char::from_u32(code) {
            assert_eq!(char_is_whitespace(c), c.is_whitespace(), "U+{:04X}", code);
        }
        code += 1;
    }
}

#[test]
fn whitespace_characters() {
    for c in [' ', '\t', '\n', '\r', '\u{0B}', '\u{0C}', '\u{85}', '\u{A0}', '\u{1680}', '\u{2000}', '\u{200A}', '\u{2028}', '\u{2029}', '\u{202F}', '\u{205F}', '\u{3000}'] {
        assert!(char_is_whitespace(c));
    }
    for c in ['a', '0', '/', '\u{08}', '\u{0E}', '\u{1F}', '\u{200B}', '\u{180E}', '\u{FEFF}'] {
        assert!(!char_is_whitespace(c));
    }
}

#[test]
fn trimmed_takes_whitespace_off_both_ends() {
    assert_eq!(trimmed(&chars("  a b  ")), &chars("a b")[..]);
    assert_eq!(trimmed(&chars("a")), &chars("a")[..]);
    assert_eq!(trimmed(&chars("\t\r\n")), &chars("")[..]);
    assert_eq!(trimmed(&chars("")), &chars("")[..]);
    assert_eq!(trimmed(&chars("x \u{3000}")), &chars("x")[..]);
    assert_eq!(trimmed(&chars("\u{A0}x")), &chars("x")[..]);
}

#[test]
fn trimmed_is_what_std_trims() {
    let samples = [
        "", " ", "a", " a", "a ", " a ", "\ta\tb\t", "\r\n", "a\r", "\u{2003}x\u{2003}y\u{2003}",
        "  // comment  ", "\u{200B} ", " \u{FEFF}", "no space", "   ",
    ];
    for s in samples {
        assert_eq!(trimmed(&chars(s)), &chars(s.trim())[..], "{:?}", s);
    }
}

#[test]
fn matches_at_an_offset() {
    let text = chars("int /* x */");
    assert!(matches_at(&text, &chars("/*"), 4));
    assert!(!matches_at(&text, &chars("/*"), 3));
    assert!(matches_at(&text, &chars("int"), 0));
    assert!(matches_at(&text, &chars("*/"), 9));
    assert!(matches_at(&text, &chars(""), 11));
    assert!(matches_at(&text, &chars(""), 0));
}

#[test]
fn matches_at_no_offset_past_the_end() {
    let text = chars("abc");
    assert!(!matches_at(&text, &chars("c"), 3));
    assert!(!matches_at(&text, &chars("bc"), 2));
    assert!(!matches_at(&text, &chars(""), 4));
    assert!(!matches_at(&text, &chars("abcd"), 0));
    assert!(!matches_at(&text, &chars("a"), usize::MAX));
    assert!(matches_at(&text, &chars(""), 3));
}

#[test]
fn starts_with_is_what_std_says() {
    let texts = ["", "a", "//", "// x", "/ /", "/*", "x//", "é//", "////"];
    let patterns = ["", "/", "//", "/*", "// x", "// x y", "é"];
    for t in texts {
        for p in patterns {
            assert_eq!(slice_starts_with(&chars(t), &chars(p)), t.starts_with(p), "{:?} {:?}", t, p);
        }
    }
}

#[test]
fn ends_with_is_what_std_says() {
    let texts = ["", "a", "*/", "x */", "* /", "*/ x", "x*/", "é", "*/*/"];
    let patterns = ["", "/", "*/", " */", "x */", "y x */", "é"];
    for t in texts {
        for p in patterns {
            assert_eq!(slice_ends_with(&chars(t), &chars(p)), t.ends_with(p), "{:?} {:?}", t, p);
        }
    }
}

#[test]
fn contains_is_what_std_says() {
    let texts = ["", "a", "*/", "x */ y", "* /", "aab", "abab", "ab", "é*/é", "/*/"];
    let patterns = ["", "/", "*/", "/*", "ab", "aab", "abb", "bab", "é", "x */ y z"];
    for t in texts {
        for p in patterns {
            assert_eq!(slice_contains(&chars(t), &chars(p)), t.contains(p), "{:?} {:?}", t, p);
        }
    }
}

#[test]
fn any_of_several_patterns() {
    let patterns = vec![chars("#"), chars("//"), chars("--")];
    assert!(slice_starts_with_any(&chars("-- x"), &patterns));
    assert!(slice_starts_with_any(&chars("# x"), &patterns));
    assert!(!slice_starts_with_any(&chars("x # y"), &patterns));
    assert!(slice_contains_any(&chars("x # y"), &patterns));
    assert!(slice_contains_any(&chars("x -- y"), &patterns));
    assert!(!slice_contains_any(&chars("x - y /"), &patterns));
    assert!(slice_ends_with_any(&chars("x //"), &patterns));
    assert!(!slice_ends_with_any(&chars("// x"), &patterns));
}

#[test]
fn no_pattern_matches_nothing() {
    let none: Vec<Vec<char>> = Vec::new();
    assert!(!slice_starts_with_any(&chars("abc"), &none));
    assert!(!slice_contains_any(&chars("abc"), &none));
    assert!(!slice_ends_with_any(&chars("abc"), &none));
    assert!(!slice_starts_with_any(&chars(""), &none));
}

#[test]
fn empty_pattern_matches_everything() {
    let empty = vec![chars("")];
    assert!(slice_starts_with_any(&chars("abc"), &empty));
    assert!(slice_contains_any(&chars("abc"), &empty));
    assert!(slice_ends_with_any(&chars("abc"), &empty));
    assert!(slice_contains_any(&chars(""), &empty));
}

#[test]
fn join_puts_the_separator_between() {
    assert_eq!(join_strings(&Vec::new(), ", "), "");
    assert_eq!(join_strings(&vec!["rs".to_string()], ", "), "rs");
    assert_eq!(join_strings(&vec!["c".to_string(), "h".to_string()], ", "), "c, h");
    assert_eq!(
        join_strings(&vec!["a".to_string(), "".to_string(), "b".to_string()], "-"),
        "a--b"
    );
    let parts = vec!["cpp".to_string(), "hpp".to_string(), "cc".to_string()];
    assert_eq!(join_strings(&parts, ", "), parts.join(", "));
}

#[test]
fn decimal_of_small_numbers() {
    assert_eq!(decimal_string(0), "0");
    assert_eq!(decimal_string(1), "1");
    assert_eq!(decimal_string(9), "9");
    assert_eq!(decimal_string(10), "10");
    assert_eq!(decimal_string(42), "42");
    assert_eq!(decimal_string(100), "100");
    assert_eq!(decimal_string(1234567890), "1234567890");
}

#[test]
fn decimal_of_the_largest_number() {
    assert_eq!(decimal_string(u64::MAX), "18446744073709551615");
    assert_eq!(decimal_string(u64::MAX - 1), "18446744073709551614");
    assert_eq!(decimal_string(10000000000000000000), "10000000000000000000");
}

#[test]
fn decimal_is_what_std_writes() {
    let mut n: u64 = 0;
    while n < 2000 {
        assert_eq!(decimal_string(n), n.to_string());
        n += 1;
    }
    let mut p: u64 = 1;
    for _ in 0..19 {
        for n in [p - 1, p, p + 1, p * 9, p * 5 + 7] {
            assert_eq!(decimal_string(n), n.to_string());
        }
        p *= 10;
    }
}
