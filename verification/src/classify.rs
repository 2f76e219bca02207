//! The line classifier: which lines are blank, which are comments, which are code.
//!
//! One flag is carried from line to line: whether a block comment is open.

use vstd::prelude::*;
use vstd::slice::slice_subrange;
use crate::config::{CommentMarkers, TextFileDescription};
use crate::text::{
    chars_of, chars_of_all, contains_any, first_line_len, line_end, pattern_views,
    slice_contains_any, slice_starts_with_any, split_lines, starts_with_any, trim, trimmed,
};

verus! {

/// What a line counts as.
#[derive(Clone, Copy, Debug, PartialEq, Eq, Structural)]
pub enum LineCategory {
    /// Nothing but whitespace.
    Blank,
    /// A comment, or part of one.
    Comment,
    /// Anything else.
    Code,
}

/// The category of `line`, and whether a block comment is open after it, where
/// `in_block` says whether one is open before it.
///
/// The line is looked at without the whitespace at its ends.
/// - Nothing left: blank, and the flag stays as it is.
/// - Inside a block comment: a comment. The block comment ends with this line
///   if the line holds an end marker anywhere.
/// - Beginning with a line marker: a comment.
/// - Beginning with a block-start marker: a comment. The block comment stays
///   open unless the line holds an end marker anywhere.
/// - Otherwise: code. A block-start marker further inside the line opens a
///   block comment for the lines that follow.
///
/// Line markers are tried before block-start markers. What stands after an end
/// marker is not looked at.
pub open spec fn classify(line: Seq<char>, markers: CommentMarkers, in_block: bool) -> (
    LineCategory,
    bool,
) {
    let text = trim(line);
    if text.len() == 0 {
        (LineCategory::Blank, in_block)
    } else if in_block {
        (LineCategory::Comment, !contains_any(text, markers.block_end))
    } else if starts_with_any(text, markers.line) {
        (LineCategory::Comment, false)
    } else if starts_with_any(text, markers.block_start) {
        (LineCategory::Comment, !contains_any(text, markers.block_end))
    } else {
        (LineCategory::Code, contains_any(text, markers.block_start))
    }
}

/// How many lines of each category there are.
pub struct LineCounts {
    pub code: nat,
    pub comment: nat,
    pub blank: nat,
}

impl LineCounts {
    /// No line at all.
    pub open spec fn zero() -> LineCounts {
        LineCounts { code: 0, comment: 0, blank: 0 }
    }

    /// These lines and one more, of `category`.
    pub open spec fn with(self, category: LineCategory) -> LineCounts {
        match category {
            LineCategory::Blank => LineCounts { blank: self.blank + 1, ..self },
            LineCategory::Comment => LineCounts { comment: self.comment + 1, ..self },
            LineCategory::Code => LineCounts { code: self.code + 1, ..self },
        }
    }

    /// These lines and those of `other`.
    pub open spec fn plus(self, other: LineCounts) -> LineCounts {
        LineCounts {
            code: self.code + other.code,
            comment: self.comment + other.comment,
            blank: self.blank + other.blank,
        }
    }

    /// The number of lines.
    pub open spec fn total(self) -> nat {
        self.code + self.comment + self.blank
    }
}

/// The counts of `lines`, classified one after the other, where `in_block` says
/// whether a block comment is open before the first.
pub open spec fn count_lines(lines: Seq<Seq<char>>, markers: CommentMarkers, in_block: bool) -> LineCounts
    decreases lines.len(),
{
    if lines.len() == 0 {
        LineCounts::zero()
    } else {
        let (category, next) = classify(lines[0], markers, in_block);
        count_lines(lines.skip(1), markers, next).with(category)
    }
}

/// The counts of a file that holds `content`: those of its lines, with no block
/// comment open before the first.
pub open spec fn count_content(content: Seq<char>, markers: CommentMarkers) -> LineCounts {
    count_lines(split_lines(content), markers, false)
}

/// Every line is counted once.
pub proof fn lemma_count_lines_total(lines: Seq<Seq<char>>, markers: CommentMarkers, in_block: bool)
    ensures
        count_lines(lines, markers, in_block).total() == lines.len(),
    decreases lines.len(),
{
    if lines.len() > 0 {
        let (category, next) = classify(lines[0], markers, in_block);
        lemma_count_lines_total(lines.skip(1), markers, next);
    }
}

/// The comment markers of one file type, as characters.
pub struct MarkerChars {
    pub line: Vec<Vec<char>>,
    pub block_start: Vec<Vec<char>>,
    pub block_end: Vec<Vec<char>>,
}

impl View for MarkerChars {
    type V = CommentMarkers;

    open spec fn view(&self) -> CommentMarkers {
        CommentMarkers {
            line: pattern_views(self.line@),
            block_start: pattern_views(self.block_start@),
            block_end: pattern_views(self.block_end@),
        }
    }
}

impl MarkerChars {
    /// The markers of `file_type`.
    pub fn of(file_type: &TextFileDescription) -> (markers: MarkerChars)
        ensures
            markers@ == file_type@.markers,
    {
        MarkerChars {
            line: chars_of_all(&file_type.comments),
            block_start: chars_of_all(&file_type.multiline_comment_start),
            block_end: chars_of_all(&file_type.multiline_comment_end),
        }
    }
}

/// Classifies one line given as characters.
pub fn classify_chars(line: &[char], markers: &MarkerChars, in_block: bool) -> (result: (
    LineCategory,
    bool,
))
    ensures
        result == classify(line@, markers@, in_block),
{
    let text = trimmed(line);
    if text.len() == 0 {
        (LineCategory::Blank, in_block)
    } else if in_block {
        (LineCategory::Comment, !slice_contains_any(text, &markers.block_end))
    } else if slice_starts_with_any(text, &markers.line) {
        (LineCategory::Comment, false)
    } else if slice_starts_with_any(text, &markers.block_start) {
        (LineCategory::Comment, !slice_contains_any(text, &markers.block_end))
    } else {
        (LineCategory::Code, slice_contains_any(text, &markers.block_start))
    }
}

/// Classifies one line of a file of type `file_type`. `in_block_comment` says
/// whether a block comment is open before the line, and afterwards whether one
/// is open after it.
pub fn classify_line(line: &str, file_type: &TextFileDescription, in_block_comment: &mut bool) -> (category:
    LineCategory)
    ensures
        (category, *final(in_block_comment)) == classify(
            line@,
            file_type@.markers,
            *old(in_block_comment),
        ),
{
    let chars = chars_of(line);
    let markers = MarkerChars::of(file_type);
    let (category, next) = classify_chars(chars.as_slice(), &markers, *in_block_comment);
    *in_block_comment = next;
    category
}

/// The counts of lines of a file, as 64-bit numbers.
#[derive(Clone, Copy, Debug, PartialEq, Eq, Structural)]
pub struct LineTally {
    pub code_lines_count: u64,
    pub comment_lines_count: u64,
    pub empty_lines_count: u64,
}

impl View for LineTally {
    type V = LineCounts;

    open spec fn view(&self) -> LineCounts {
        LineCounts {
            code: self.code_lines_count as nat,
            comment: self.comment_lines_count as nat,
            blank: self.empty_lines_count as nat,
        }
    }
}

/// Counts the lines of `content` by category.
pub fn count_chars(content: &[char], markers: &MarkerChars) -> (tally: LineTally)
    ensures
        tally@ == count_content(content@, markers@),
        tally@.total() == split_lines(content@).len(),
{
    let n: usize = content.len();
    let mut tally = LineTally { code_lines_count: 0, comment_lines_count: 0, empty_lines_count: 0 };
    let mut in_block = false;
    let mut start: usize = 0;
    assert(content@.skip(0) =~= content@);
    while start < n
        invariant
            start <= n,
            n == content@.len(),
            tally@.total() <= start,
            count_content(content@, markers@) == tally@.plus(
                count_lines(split_lines(content@.skip(start as int)), markers@, in_block),
            ),
        decreases n - start,
    {
        let end: usize = line_end(content, start);
        let line = slice_subrange(content, start, end);
        let (category, next) = classify_chars(line, markers, in_block);
        let after: usize = if end < n {
            end + 1
        } else {
            n
        };
        proof {
            let here = content@.skip(start as int);
            let len: int = first_line_len(here) as int;
            let rest: Seq<char> = if len < here.len() {
                here.skip(len + 1)
            } else {
                Seq::empty()
            };
            assert(here.take(len) =~= line@);
            assert(rest =~= content@.skip(after as int));
            let lines = split_lines(here);
            assert(lines == seq![line@] + split_lines(rest));
            assert(lines[0] == line@);
            assert(lines.skip(1) =~= split_lines(rest));
        }
        match category {
            LineCategory::Blank => {
                tally.empty_lines_count += 1;
            },
            LineCategory::Comment => {
                tally.comment_lines_count += 1;
            },
            LineCategory::Code => {
                tally.code_lines_count += 1;
            },
        }
        in_block = next;
        start = after;
    }
    proof {
        lemma_count_lines_total(split_lines(content@), markers@, false);
    }
    tally
}

} // verus!
