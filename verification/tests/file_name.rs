use code_analyzer::file_name::file_extension;
use std::path::Path;

#[test]
fn extension_is_what_follows_the_last_dot() {
    assert_eq!(file_extension("main.rs"), Some("rs"));
    assert_eq!(file_extension("readme.xyz"), Some("xyz"));
    assert_eq!(file_extension("archive.tar.gz"), Some("gz"));
    assert_eq!(file_extension("a.b"), Some("b"));
    assert_eq!(file_extension("with space.TXT"), Some("TXT"));
}

#[test]
fn name_without_dot_has_no_extension() {
    assert_eq!(file_extension("Makefile"), None);
    assert_eq!(file_extension("rs"), None);
    assert_eq!(file_extension(""), None);
}

#[test]
fn leading_dot_alone_gives_no_extension() {
    assert_eq!(file_extension(".gitignore"), None);
    assert_eq!(file_extension("."), None);
    assert_eq!(file_extension(".config.yaml"), Some("yaml"));
}

#[test]
fn two_dots_are_no_name_with_extension() {
    assert_eq!(file_extension(".."), None);
    assert_eq!(file_extension("..."), Some(""));
    assert_eq!(file_extension("..a"), Some("a"));
    assert_eq!(file_extension("a.."), Some(""));
}

#[test]
fn final_dot_gives_empty_extension() {
    assert_eq!(file_extension("main."), Some(""));
    assert_eq!(file_extension("main.rs."), Some(""));
}

#[test]
fn extension_is_counted_in_characters() {
    assert_eq!(file_extension("r\u{e9}sum\u{e9}.t\u{e9}x"), Some("t\u{e9}x"));
    assert_eq!(file_extension("\u{65e5}\u{672c}.\u{8a9e}"), Some("\u{8a9e}"));
    assert_eq!(file_extension("\u{65e5}\u{672c}\u{8a9e}"), None);
}

#[test]
fn extension_is_what_std_gives_for_a_file_name() {
    let names = [
        "main.rs", "Makefile", ".gitignore", ".config.yaml", "a.b.c", "main.", "x..y", "a..",
        "...", "..a", "r\u{e9}sum\u{e9}.t\u{e9}x", " .rs", "a. b", "-.-", "a.b ",
    ];
    for name in names {
        let expected = Path::new(name).extension().map(|e| e.to_str().unwrap());
        assert_eq!(file_extension(name), expected, "{:?}", name);
    }
}
