//! File types and how they are described.

use vstd::prelude::*;
use crate::text::string_views;

verus! {

/// The comment markers of one file type, as character sequences.
pub struct CommentMarkers {
    /// Markers that start a comment running to the end of the line.
    pub line: Seq<Seq<char>>,
    /// Markers that open a block comment.
    pub block_start: Seq<Seq<char>>,
    /// Markers that close a block comment.
    pub block_end: Seq<Seq<char>>,
}

/// What a [`TextFileDescription`] says, as character sequences.
pub struct FileTypeView {
    pub name: Seq<char>,
    pub extensions: Seq<Seq<char>>,
    pub markers: CommentMarkers,
}

/// One file type: its name, the extensions of its files and its comment markers.
#[derive(Clone, Debug, PartialEq, Eq)]
pub struct TextFileDescription {
    pub name: String,
    /// Extensions without the dot, compared as they are written.
    pub extensions: Vec<String>,
    /// Markers that start a comment running to the end of the line.
    pub comments: Vec<String>,
    pub multiline_comment_start: Vec<String>,
    pub multiline_comment_end: Vec<String>,
}

impl View for TextFileDescription {
    type V = FileTypeView;

    open spec fn view(&self) -> FileTypeView {
        FileTypeView {
            name: self.name@,
            extensions: string_views(self.extensions@),
            markers: CommentMarkers {
                line: string_views(self.comments@),
                block_start: string_views(self.multiline_comment_start@),
                block_end: string_views(self.multiline_comment_end@),
            },
        }
    }
}

/// The views of `file_types`, in order.
pub open spec fn file_type_views(file_types: Seq<TextFileDescription>) -> Seq<FileTypeView> {
    file_types.map_values(|d: TextFileDescription| d@)
}

/// The file types that an analyzer is to know, in the order in which they are looked up.
#[derive(Clone, Debug, PartialEq, Eq)]
pub struct AnalyzerConfiguration {
    pub file_types: Vec<TextFileDescription>,
}

impl View for AnalyzerConfiguration {
    type V = Seq<FileTypeView>;

    open spec fn view(&self) -> Seq<FileTypeView> {
        file_type_views(self.file_types@)
    }
}

/// The one file type of the default configuration: files ending in `rs`, with
/// `//` line comments and `/*` ... `*/` block comments.
pub open spec fn default_file_type() -> FileTypeView {
    FileTypeView {
        name: "generic"@,
        extensions: seq!["rs"@],
        markers: CommentMarkers {
            line: seq!["//"@],
            block_start: seq!["/*"@],
            block_end: seq!["*/"@],
        },
    }
}

/// A vector that holds `s` and nothing else.
fn single(s: &str) -> (v: Vec<String>)
    ensures
        string_views(v@) == seq![s@],
{
    let mut v: Vec<String> = Vec::new();
    v.push(s.to_owned());
    assert(string_views(v@) =~= seq![s@]);
    v
}

impl Default for AnalyzerConfiguration {
    /// The configuration used when none is given: [`default_file_type`] alone.
    fn default() -> (config: Self)
        ensures
            config@ == seq![default_file_type()],
    {
        let generic = TextFileDescription {
            name: "generic".to_owned(),
            extensions: single("rs"),
            comments: single("//"),
            multiline_comment_start: single("/*"),
            multiline_comment_end: single("*/"),
        };
        let mut file_types: Vec<TextFileDescription> = Vec::new();
        file_types.push(generic);
        let config = AnalyzerConfiguration { file_types };
        assert(config@ =~= seq![default_file_type()]);
        config
    }
}

} // verus!
