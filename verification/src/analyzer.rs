//! The analyzer: the file types it knows, and what it counts in files of those types.

use vstd::prelude::*;
use crate::classify::{count_chars, count_content, LineTally, MarkerChars};
use crate::config::{file_type_views, AnalyzerConfiguration, FileTypeView, TextFileDescription};
use crate::file_name::{extension_of, file_extension};
use crate::registry::{
    file_type_of, is_first_named, is_first_with_extension, lemma_position_of_distinct_name,
    lemma_register_keeps_names_distinct, names_distinct, position_of_extension, position_of_name,
    registry_of,
};
use crate::report::{
    analysis_view, lemma_fits_within, lemma_report_of_ignored, lemma_report_of_prefix, report_of,
    row_order_of, CodeAnalysisReport, FileAnalysisReport, FileTallyView, ReportView,
};
use crate::text::{
    chars_of, chars_of_all, contains_any, ends_with_any, slice_contains_any, slice_ends_with_any,
    slice_starts_with_any, split_lines, starts_with_any, string_views,
};

verus! {

/// A file as the analyzer takes it: its name and what it holds.
pub struct SourceFileView {
    pub name: Seq<char>,
    pub content: Seq<char>,
}

/// A file as the analyzer takes it.
#[derive(Clone, Debug, PartialEq, Eq)]
pub struct SourceFile {
    /// The name of the file, without the directories that lead to it.
    pub name: String,
    /// The text of the file. It is only looked at where a file type lists the
    /// extension of the name.
    pub content: String,
}

impl View for SourceFile {
    type V = SourceFileView;

    open spec fn view(&self) -> SourceFileView {
        SourceFileView { name: self.name@, content: self.content@ }
    }
}

/// The views of `files`, in order.
pub open spec fn source_file_views(files: Seq<SourceFile>) -> Seq<SourceFileView> {
    files.map_values(|f: SourceFile| f@)
}

/// What the analysis of one file gives: nothing where the name of the file
/// has no extension or no file type of `registry` lists it; else the name of
/// the first file type that does, and the counts of the content's lines under
/// that type's markers.
pub open spec fn analysis_of(
    registry: Seq<FileTypeView>,
    file_name: Seq<char>,
    content: Seq<char>,
) -> Option<FileTallyView> {
    match extension_of(file_name) {
        None => None,
        Some(e) => match file_type_of(registry, e) {
            None => None,
            Some(file_type) => Some(
                FileTallyView {
                    file_type: file_type.name,
                    counts: count_content(content, file_type.markers),
                },
            ),
        },
    }
}

/// What the analysis of each of `files` gives, in order.
pub open spec fn outcomes_of(registry: Seq<FileTypeView>, files: Seq<SourceFileView>) -> Seq<
    Option<FileTallyView>,
> {
    files.map_values(|f: SourceFileView| analysis_of(registry, f.name, f.content))
}

/// The report of `files`: each is analysed, and the results are summed per file type.
pub open spec fn tree_report(registry: Seq<FileTypeView>, files: Seq<SourceFileView>) -> ReportView {
    report_of(outcomes_of(registry, files), registry)
}

/// Counts lines of code, comments and blank lines in files of the types it knows.
#[derive(Debug)]
pub struct CodeAnalyzer {
    known_files: Vec<TextFileDescription>,
}

impl View for CodeAnalyzer {
    type V = Seq<FileTypeView>;

    /// The file types that the analyzer knows, in the order in which an
    /// extension is looked up.
    closed spec fn view(&self) -> Seq<FileTypeView> {
        file_type_views(self.known_files@)
    }
}

impl CodeAnalyzer {
    #[verifier::type_invariant]
    spec fn names_are_distinct(self) -> bool {
        names_distinct(file_type_views(self.known_files@))
    }

    /// The place of the first of `known` that is called `name`.
    fn find_name(known: &Vec<TextFileDescription>, name: &String) -> (found: Option<usize>)
        ensures
            match found {
                Some(i) => position_of_name(file_type_views(known@), name@) == Some(i as int),
                None => position_of_name(file_type_views(known@), name@) is None,
            },
    {
        let ghost views = file_type_views(known@);
        let mut i: usize = 0;
        while i < known.len()
            invariant
                i <= known@.len(),
                views == file_type_views(known@),
                forall|k: int| 0 <= k < i ==> (#[trigger] views[k]).name != name@,
            decreases known.len() - i,
        {
            if known[i].name == *name {
                proof {
                    assert(views[i as int].name == name@);
                    assert(is_first_named(views, name@, i as int));
                    let k: int = choose|k: int| is_first_named(views, name@, k);
                    assert(k == i);
                }
                return Some(i);
            }
            i += 1;
        }
        proof {
            assert forall|k: int| !is_first_named(views, name@, k) by {
                if 0 <= k < views.len() {
                    assert(views[k].name != name@);
                }
            }
        }
        None
    }

    /// An analyzer that knows the file types of `config`. Of two file types
    /// with one name it knows the later, in the place of the earlier.
    pub fn new(config: AnalyzerConfiguration) -> (analyzer: CodeAnalyzer)
        ensures
            analyzer@ == registry_of(config@),
            names_distinct(analyzer@),
    {
        let ghost given = config@;
        let mut known: Vec<TextFileDescription> = Vec::new();
        assert(given.take(0) =~= Seq::empty());
        for file_type in it: config.file_types
            invariant
                file_type_views(it.seq()) == given,
                file_type_views(known@) == registry_of(given.take(it.index() as int)),
                names_distinct(file_type_views(known@)),
        {
            let ghost before = file_type_views(known@);
            proof {
                let longer = given.take(it.index() + 1);
                assert(longer.drop_last() =~= given.take(it.index() as int));
                assert(longer.last() == file_type@);
                lemma_register_keeps_names_distinct(before, file_type@);
            }
            match Self::find_name(&known, &file_type.name) {
                Some(i) => {
                    known[i] = file_type;
                    assert(file_type_views(known@) =~= before.update(i as int, file_type@));
                },
                None => {
                    known.push(file_type);
                    assert(file_type_views(known@) =~= before.push(file_type@));
                },
            }
        }
        assert(given.take(given.len() as int) =~= given);
        CodeAnalyzer { known_files: known }
    }

    /// The file types that the analyzer knows, in the order in which an
    /// extension is looked up.
    pub fn file_types(&self) -> (known: &Vec<TextFileDescription>)
        ensures
            file_type_views(known@) == self@,
            names_distinct(self@),
    {
        proof {
            use_type_invariant(self);
        }
        &self.known_files
    }

    /// The place of the first file type that lists `extension`.
    fn find_extension(&self, extension: &str) -> (found: Option<usize>)
        ensures
            match found {
                Some(i) => position_of_extension(self@, extension@) == Some(i as int) && i
                    < self.known_files@.len(),
                None => position_of_extension(self@, extension@) is None,
            },
    {
        let ghost views = file_type_views(self.known_files@);
        let wanted = extension.to_owned();
        let mut i: usize = 0;
        while i < self.known_files.len()
            invariant
                i <= self.known_files@.len(),
                views == file_type_views(self.known_files@),
                wanted@ == extension@,
                forall|k: int| 0 <= k < i ==> !(#[trigger] views[k]).extensions.contains(extension@),
            decreases self.known_files.len() - i,
        {
            let listed = &self.known_files[i].extensions;
            let mut j: usize = 0;
            while j < listed.len()
                invariant
                    j <= listed@.len(),
                    wanted@ == extension@,
                    i < self.known_files@.len(),
                    views == file_type_views(self.known_files@),
                    listed == &self.known_files@[i as int].extensions,
                    forall|k: int| 0 <= k < j ==> listed@[k]@ != extension@,
                    forall|k: int| 0 <= k < i ==> !(#[trigger] views[k]).extensions.contains(extension@),
                decreases listed.len() - j,
            {
                if listed[j] == wanted {
                    proof {
                        assert(views[i as int].extensions[j as int] == extension@);
                        assert(is_first_with_extension(views, extension@, i as int));
                        let k: int = choose|k: int| is_first_with_extension(views, extension@, k);
                        assert(k == i);
                    }
                    return Some(i);
                }
                j += 1;
            }
            proof {
                let extensions = views[i as int].extensions;
                assert forall|k: int| 0 <= k < extensions.len() implies extensions[k] != extension@ by {
                    assert(extensions[k] == listed@[k]@);
                }
            }
            i += 1;
        }
        proof {
            assert forall|k: int| !is_first_with_extension(views, extension@, k) by {
                if 0 <= k < views.len() {
                    assert(!views[k].extensions.contains(extension@));
                }
            }
        }
        None
    }

    /// The name of the first file type that lists `extension`, if one does.
    /// Extensions are compared as they are written.
    pub fn find_file_type_by_ext(&self, extension: &str) -> (name: Option<String>)
        ensures
            match name {
                Some(n) => file_type_of(self@, extension@) is Some && n@ == file_type_of(
                    self@,
                    extension@,
                ).unwrap().name,
                None => file_type_of(self@, extension@) is None,
            },
    {
        match self.find_extension(extension) {
            Some(i) => Some(self.known_files[i].name.clone()),
            None => None,
        }
    }

    /// Whether `line` begins with one of `comments`.
    pub fn is_line_comment(line: &str, comments: &Vec<String>) -> (found: bool)
        ensures
            found == starts_with_any(line@, string_views(comments@)),
    {
        let text = chars_of(line);
        let markers = chars_of_all(comments);
        slice_starts_with_any(text.as_slice(), &markers)
    }

    /// Whether one of `comments` stands somewhere in `line`.
    pub fn is_line_multiline_comment_start(line: &str, comments: &Vec<String>) -> (found: bool)
        ensures
            found == contains_any(line@, string_views(comments@)),
    {
        let text = chars_of(line);
        let markers = chars_of_all(comments);
        slice_contains_any(text.as_slice(), &markers)
    }

    /// Whether `line` begins with one of `comments`.
    pub fn is_line_multiline_comment_start_only(line: &str, comments: &Vec<String>) -> (found: bool)
        ensures
            found == starts_with_any(line@, string_views(comments@)),
    {
        let text = chars_of(line);
        let markers = chars_of_all(comments);
        slice_starts_with_any(text.as_slice(), &markers)
    }

    /// Whether one of `comments` stands somewhere in `line`.
    pub fn is_line_multiline_comment_end(line: &str, comments: &Vec<String>) -> (found: bool)
        ensures
            found == contains_any(line@, string_views(comments@)),
    {
        let text = chars_of(line);
        let markers = chars_of_all(comments);
        slice_contains_any(text.as_slice(), &markers)
    }

    /// Whether `line` ends with one of `comments`.
    pub fn is_line_multiline_comment_end_only(line: &str, comments: &Vec<String>) -> (found: bool)
        ensures
            found == ends_with_any(line@, string_views(comments@)),
    {
        let text = chars_of(line);
        let markers = chars_of_all(comments);
        slice_ends_with_any(text.as_slice(), &markers)
    }

    /// The place of the file type of a file called `file_name`, and the
    /// counts of `content` under its markers.
    fn analyze(&self, file_name: &str, content: &str) -> (found: Option<(usize, LineTally)>)
        ensures
            match found {
                Some((i, tally)) => i < self.known_files@.len() && analysis_of(
                    self@,
                    file_name@,
                    content@,
                ) == Some(FileTallyView { file_type: self@[i as int].name, counts: tally@ })
                    && tally@.total() == split_lines(content@).len(),
                None => analysis_of(self@, file_name@, content@) is None,
            },
    {
        match file_extension(file_name) {
            None => None,
            Some(e) => match self.find_extension(e) {
                None => None,
                Some(i) => {
                    let markers = MarkerChars::of(&self.known_files[i]);
                    let chars = chars_of(content);
                    let tally = count_chars(chars.as_slice(), &markers);
                    Some((i, tally))
                },
            },
        }
    }

    /// Counts the lines of one file: `file_name` is its name, without the
    /// directories that lead to it, and `content` its text. Returns nothing
    /// where the name has no extension or no file type lists it.
    pub fn analyze_file(&self, file_name: &str, content: &str) -> (analysis: Option<
        FileAnalysisReport,
    >)
        ensures
            analysis_view(analysis) == analysis_of(self@, file_name@, content@),
            analysis matches Some(a) ==> a.code_lines_count + a.comment_lines_count
                + a.empty_lines_count == split_lines(content@).len(),
    {
        match self.analyze(file_name, content) {
            None => None,
            Some((i, tally)) => Some(
                FileAnalysisReport {
                    file_type: self.known_files[i].name.clone(),
                    code_lines_count: tally.code_lines_count,
                    comment_lines_count: tally.comment_lines_count,
                    empty_lines_count: tally.empty_lines_count,
                },
            ),
        }
    }

    /// Analyses `files` one after the other and sums the results per file
    /// type. A file whose name has no extension, or one that no file type
    /// lists, is counted as left out. Returns nothing where a number of the report
    /// does not fit in 64 bits.
    pub fn try_analyze_dir(&self, files: &Vec<SourceFile>) -> (report: Option<CodeAnalysisReport>)
        ensures
            match report {
                Some(r) => r@ == tree_report(self@, source_file_views(files@)) && r@.fits()
                    && r.row_order() == row_order_of(
                    outcomes_of(self@, source_file_views(files@)),
                ),
                None => !tree_report(self@, source_file_views(files@)).fits(),
            },
    {
        proof {
            use_type_invariant(self);
        }
        let ghost outcomes = outcomes_of(self@, source_file_views(files@));
        let mut report = CodeAnalysisReport::new();
        let mut i: usize = 0;
        assert(outcomes.take(0) =~= Seq::empty());
        while i < files.len()
            invariant
                i <= files@.len(),
                names_distinct(self@),
                outcomes == outcomes_of(self@, source_file_views(files@)),
                report@ == report_of(outcomes.take(i as int), self@),
                report@.fits(),
                report.row_order() == row_order_of(outcomes.take(i as int)),
            decreases files.len() - i,
        {
            let file = &files[i];
            let found = self.analyze(file.name.as_str(), file.content.as_str());
            proof {
                let longer = outcomes.take(i + 1);
                assert(longer.drop_last() =~= outcomes.take(i as int));
                assert(longer.last() == analysis_of(
                    self@,
                    files@[i as int]@.name,
                    files@[i as int]@.content,
                ));
                lemma_report_of_prefix(outcomes, self@, i + 1);
            }
            let next = match found {
                None => report.record_ignored(),
                Some((at, tally)) => {
                    proof {
                        lemma_position_of_distinct_name(self@, at as int);
                    }
                    report.record_file(&self.known_files[at], tally)
                },
            };
            match next {
                Some(r) => {
                    report = r;
                },
                None => {
                    proof {
                        if report_of(outcomes, self@).fits() {
                            lemma_fits_within(
                                report_of(outcomes.take(i + 1), self@),
                                report_of(outcomes, self@),
                            );
                        }
                    }
                    return None;
                },
            }
            i += 1;
        }
        assert(outcomes.take(files@.len() as int) =~= outcomes);
        Some(report)
    }

    /// Analyses `files` one after the other and sums the results per file
    /// type. A file whose name has no extension, or one that no file type
    /// lists, is counted as left out.
    pub fn analyze_dir(&self, files: &Vec<SourceFile>) -> (report: CodeAnalysisReport)
        requires
            tree_report(self@, source_file_views(files@)).fits(),
        ensures
            report@ == tree_report(self@, source_file_views(files@)),
            report@.files_total == files@.len(),
            report.row_order() == row_order_of(outcomes_of(self@, source_file_views(files@))),
    {
        proof {
            lemma_report_of_ignored(outcomes_of(self@, source_file_views(files@)), self@);
        }
        self.try_analyze_dir(files).unwrap()
    }
}

} // verus!
