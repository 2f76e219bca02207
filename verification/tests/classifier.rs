use code_analyzer::classify::{classify_chars, classify_line, count_chars, LineCategory, MarkerChars};
use code_analyzer::config::TextFileDescription;
use code_analyzer::text::chars_of;

fn strings(items: &[&str]) -> Vec<String> {
    items.iter().map(|s| s.to_string()).collect()
}

fn c_like() -> TextFileDescription {
    TextFileDescription {
        name: "C".to_string(),
        extensions: strings(&["c", "h"]),
        comments: strings(&["//"]),
        multiline_comment_start: strings(&["/*"]),
        multiline_comment_end: strings(&["*/"]),
    }
}

fn step(line: &str, file_type: &TextFileDescription, in_block: bool) -> (LineCategory, bool) {
    let mut state = in_block;
    let category = classify_line(line, file_type, &mut state);
    (category, state)
}

#[test]
fn blank_line_outside_block_comment() {
    let c = c_like();
    assert_eq!(step("", &c, false), (LineCategory::Blank, false));
    assert_eq!(step("   ", &c, false), (LineCategory::Blank, false));
    assert_eq!(step("\t \r", &c, false), (LineCategory::Blank, false));
}

#[test]
fn blank_line_keeps_open_block_comment() {
    let c = c_like();
    assert_eq!(step("", &c, true), (LineCategory::Blank, true));
    assert_eq!(step(" \t ", &c, true), (LineCategory::Blank, true));
}

#[test]
fn blank_comes_before_every_marker() {
    // A file type whose markers are whitespace or empty: a blank line is
    // still blank, and the flag stays as it was.
    let odd = TextFileDescription {
        name: "odd".to_string(),
        extensions: strings(&["odd"]),
        comments: strings(&[" ", ""]),
        multiline_comment_start: strings(&["\t", ""]),
        multiline_comment_end: strings(&[" ", ""]),
    };
    assert_eq!(step("  ", &odd, false), (LineCategory::Blank, false));
    assert_eq!(step("\t", &odd, false), (LineCategory::Blank, false));
    assert_eq!(step("  ", &odd, true), (LineCategory::Blank, true));
    assert_eq!(step("", &odd, false), (LineCategory::Blank, false));
}

#[test]
fn unicode_whitespace_is_blank() {
    let c = c_like();
    assert_eq!(step("\u{00A0}\u{2003}\u{3000}", &c, false), (LineCategory::Blank, false));
    assert_eq!(step("\u{0085}\u{1680}\u{2028}\u{2029}\u{202F}\u{205F}", &c, false), (LineCategory::Blank, false));
    // The zero-width space is no whitespace.
    assert_eq!(step("\u{200B}", &c, false), (LineCategory::Code, false));
}

#[test]
fn line_comment_is_comment() {
    let c = c_like();
    assert_eq!(step("// header", &c, false), (LineCategory::Comment, false));
    assert_eq!(step("   // indented", &c, false), (LineCategory::Comment, false));
    assert_eq!(step("//", &c, false), (LineCategory::Comment, false));
}

#[test]
fn line_comment_holding_block_markers_opens_nothing() {
    let c = c_like();
    assert_eq!(step("// see /* this", &c, false), (LineCategory::Comment, false));
    assert_eq!(step("// see */ this", &c, false), (LineCategory::Comment, false));
}

#[test]
fn code_line_is_code() {
    let c = c_like();
    assert_eq!(step("int x = 1;", &c, false), (LineCategory::Code, false));
    assert_eq!(step("  return 0; // done", &c, false), (LineCategory::Code, false));
    assert_eq!(step("x */ y", &c, false), (LineCategory::Code, false));
}

#[test]
fn single_line_block_comment() {
    let c = c_like();
    assert_eq!(step("/* comment */", &c, false), (LineCategory::Comment, false));
    assert_eq!(step("   /* comment */   ", &c, false), (LineCategory::Comment, false));
}

#[test]
fn block_comment_closed_on_its_line_with_code_after_it() {
    let c = c_like();
    assert_eq!(step("/* note */ int x = 1;", &c, false), (LineCategory::Comment, false));
}

#[test]
fn block_comment_opens() {
    let c = c_like();
    assert_eq!(step("/* block", &c, false), (LineCategory::Comment, true));
    assert_eq!(step("/*", &c, false), (LineCategory::Comment, true));
}

#[test]
fn inside_block_comment_everything_is_comment() {
    let c = c_like();
    assert_eq!(step("still comment", &c, true), (LineCategory::Comment, true));
    assert_eq!(step("int x = 1;", &c, true), (LineCategory::Comment, true));
    assert_eq!(step("// line marker inside", &c, true), (LineCategory::Comment, true));
    assert_eq!(step("/* again", &c, true), (LineCategory::Comment, true));
}

#[test]
fn block_comment_closes() {
    let c = c_like();
    assert_eq!(step("comment */", &c, true), (LineCategory::Comment, false));
    assert_eq!(step("*/", &c, true), (LineCategory::Comment, false));
    assert_eq!(step("  */  ", &c, true), (LineCategory::Comment, false));
}

#[test]
fn code_after_the_end_marker_is_not_looked_at() {
    let c = c_like();
    assert_eq!(step("*/ int x = 1;", &c, true), (LineCategory::Comment, false));
}

#[test]
fn line_marker_inside_block_does_not_keep_it_open() {
    let c = c_like();
    assert_eq!(step("// end */", &c, true), (LineCategory::Comment, false));
}

#[test]
fn block_start_inside_code_line_opens_block() {
    let c = c_like();
    assert_eq!(step("int x = 1; /* why", &c, false), (LineCategory::Code, true));
    assert_eq!(step("int x = 5; /* note */", &c, false), (LineCategory::Code, true));
}

#[test]
fn unterminated_block_comment() {
    let c = c_like();
    let mut state = false;
    assert_eq!(classify_line("/*", &c, &mut state), LineCategory::Comment);
    assert!(state);
    assert_eq!(classify_line("still comment", &c, &mut state), LineCategory::Comment);
    assert!(state);
}

#[test]
fn line_markers_are_tried_before_block_markers() {
    // Both lists hold a marker that the line begins with: the line marker has it.
    let shared = TextFileDescription {
        name: "shared".to_string(),
        extensions: strings(&["s"]),
        comments: strings(&["--"]),
        multiline_comment_start: strings(&["--[["]),
        multiline_comment_end: strings(&["]]"]),
    };
    assert_eq!(step("--[[ text", &shared, false), (LineCategory::Comment, false));
    let block_only = TextFileDescription { comments: Vec::new(), ..shared.clone() };
    assert_eq!(step("--[[ text", &block_only, false), (LineCategory::Comment, true));
    assert_eq!(step("--[[ text ]]", &block_only, false), (LineCategory::Comment, false));
}

#[test]
fn any_marker_of_a_list_counts() {
    let many = TextFileDescription {
        name: "many".to_string(),
        extensions: strings(&["m"]),
        comments: strings(&["#", ";", "//"]),
        multiline_comment_start: strings(&["<!--", "{-"]),
        multiline_comment_end: strings(&["-->", "-}"]),
    };
    assert_eq!(step("; note", &many, false), (LineCategory::Comment, false));
    assert_eq!(step("// note", &many, false), (LineCategory::Comment, false));
    assert_eq!(step("{- open", &many, false), (LineCategory::Comment, true));
    assert_eq!(step("<!-- open", &many, false), (LineCategory::Comment, true));
    assert_eq!(step("close -}", &many, true), (LineCategory::Comment, false));
    // Start and end markers are not paired.
    assert_eq!(step("{- both -->", &many, false), (LineCategory::Comment, false));
}

#[test]
fn without_markers_every_line_is_code_or_blank() {
    let plain = TextFileDescription {
        name: "text".to_string(),
        extensions: strings(&["txt"]),
        comments: Vec::new(),
        multiline_comment_start: Vec::new(),
        multiline_comment_end: Vec::new(),
    };
    assert_eq!(step("// words", &plain, false), (LineCategory::Code, false));
    assert_eq!(step("/* words", &plain, false), (LineCategory::Code, false));
    assert_eq!(step("  ", &plain, false), (LineCategory::Blank, false));
    // Once inside a block comment nothing can close it.
    assert_eq!(step("*/", &plain, true), (LineCategory::Comment, true));
}

#[test]
fn end_marker_may_overlap_start_marker() {
    let c = c_like();
    assert_eq!(step("/*/", &c, false), (LineCategory::Comment, false));
}

#[test]
fn same_start_and_end_marker() {
    let quotes = TextFileDescription {
        name: "quotes".to_string(),
        extensions: strings(&["q"]),
        comments: Vec::new(),
        multiline_comment_start: strings(&["\"\"\""]),
        multiline_comment_end: strings(&["\"\"\""]),
    };
    assert_eq!(step("\"\"\"", &quotes, false), (LineCategory::Comment, false));
    assert_eq!(step("\"\"\" text", &quotes, true), (LineCategory::Comment, false));
}

#[test]
fn markers_are_matched_by_character() {
    let greek = TextFileDescription {
        name: "greek".to_string(),
        extensions: strings(&["g"]),
        comments: strings(&["§§"]),
        multiline_comment_start: strings(&["«"]),
        multiline_comment_end: strings(&["»"]),
    };
    assert_eq!(step("§§ note", &greek, false), (LineCategory::Comment, false));
    assert_eq!(step("§ note", &greek, false), (LineCategory::Code, false));
    assert_eq!(step("« open", &greek, false), (LineCategory::Comment, true));
    assert_eq!(step("closed » here", &greek, true), (LineCategory::Comment, false));
}

#[test]
fn classify_chars_agrees_with_classify_line() {
    let c = c_like();
    let markers = MarkerChars::of(&c);
    let lines = ["", "  ", "// a", "/* b", "c */", "/* d */", "e", "f /* g", "*/ h", "\u{3000}"];
    for line in lines {
        for in_block in [false, true] {
            let chars = chars_of(line);
            assert_eq!(classify_chars(&chars, &markers, in_block), step(line, &c, in_block));
        }
    }
}

#[test]
fn marker_chars_hold_each_marker() {
    let markers = MarkerChars::of(&c_like());
    assert_eq!(markers.line, vec![vec!['/', '/']]);
    assert_eq!(markers.block_start, vec![vec!['/', '*']]);
    assert_eq!(markers.block_end, vec![vec!['*', '/']]);
}

#[test]
fn count_chars_counts_each_category() {
    let markers = MarkerChars::of(&c_like());
    let content = chars_of("// header\n\nint x = 1;\n/* block\ncomment */\nint y = 2;\n");
    let tally = count_chars(&content, &markers);
    assert_eq!(tally.code_lines_count, 2);
    assert_eq!(tally.comment_lines_count, 3);
    assert_eq!(tally.empty_lines_count, 1);
}

#[test]
fn count_chars_of_nothing() {
    let markers = MarkerChars::of(&c_like());
    let tally = count_chars(&[], &markers);
    assert_eq!(tally.code_lines_count, 0);
    assert_eq!(tally.comment_lines_count, 0);
    assert_eq!(tally.empty_lines_count, 0);
}
