//! What the analysis of one file gives, the report that sums it up per file
//! type, and the report as text.

use vstd::prelude::*;
use vstd::string::StringExecFns;
use crate::classify::{LineCounts, LineTally};
use crate::config::{FileTypeView, TextFileDescription};
use crate::registry::extensions_display;
use crate::text::{decimal, decimal_string, join, join_strings};

verus! {

/// The counts of one file and the name of its file type.
pub struct FileTallyView {
    pub file_type: Seq<char>,
    pub counts: LineCounts,
}

/// The counts of one file and the name of its file type.
#[derive(Clone, Debug, PartialEq, Eq)]
pub struct FileAnalysisReport {
    pub file_type: String,
    pub code_lines_count: u64,
    pub comment_lines_count: u64,
    pub empty_lines_count: u64,
}

impl View for FileAnalysisReport {
    type V = FileTallyView;

    open spec fn view(&self) -> FileTallyView {
        FileTallyView {
            file_type: self.file_type@,
            counts: LineCounts {
                code: self.code_lines_count as nat,
                comment: self.comment_lines_count as nat,
                blank: self.empty_lines_count as nat,
            },
        }
    }
}

/// What an analysis gave, as mathematical values.
pub open spec fn analysis_view(analysis: Option<FileAnalysisReport>) -> Option<FileTallyView> {
    match analysis {
        Some(a) => Some(a@),
        None => None,
    }
}

/// The sums of one file type.
pub struct RowView {
    /// The extensions of the file type, as they are shown.
    pub extensions: Seq<char>,
    /// The number of files.
    pub files: nat,
    /// The lines of all those files.
    pub counts: LineCounts,
}

impl RowView {
    /// Whether every number fits in 64 bits.
    pub open spec fn fits(self) -> bool {
        &&& self.files <= u64::MAX
        &&& self.counts.code <= u64::MAX
        &&& self.counts.comment <= u64::MAX
        &&& self.counts.blank <= u64::MAX
    }

    /// Whether no number is larger than in `other`.
    pub open spec fn le(self, other: RowView) -> bool {
        &&& self.files <= other.files
        &&& self.counts.code <= other.counts.code
        &&& self.counts.comment <= other.counts.comment
        &&& self.counts.blank <= other.counts.blank
    }
}

/// A report: the number of files seen, the number of those that were left
/// out, and the sums of each file type that had a file, by its name.
pub struct ReportView {
    pub files_total: nat,
    pub files_ignored: nat,
    pub rows: Map<Seq<char>, RowView>,
}

impl ReportView {
    /// The report of no file.
    pub open spec fn empty() -> ReportView {
        ReportView { files_total: 0, files_ignored: 0, rows: Map::empty() }
    }

    /// This report and one more file, which is left out.
    pub open spec fn record_ignored(self) -> ReportView {
        ReportView {
            files_total: self.files_total + 1,
            files_ignored: self.files_ignored + 1,
            rows: self.rows,
        }
    }

    /// This report and one more file, with its counts. The file goes to the
    /// row of its file type. The row is made when the first file of the type
    /// comes, and then shows `extensions`.
    pub open spec fn record_file(self, tally: FileTallyView, extensions: Seq<char>) -> ReportView {
        let before = if self.rows.dom().contains(tally.file_type) {
            self.rows[tally.file_type]
        } else {
            RowView { extensions, files: 0, counts: LineCounts::zero() }
        };
        let after = RowView {
            extensions: before.extensions,
            files: before.files + 1,
            counts: before.counts.plus(tally.counts),
        };
        ReportView {
            files_total: self.files_total + 1,
            files_ignored: self.files_ignored,
            rows: self.rows.insert(tally.file_type, after),
        }
    }

    /// This report and one more file. Without counts the file is left out.
    /// With counts it goes to the row of its file type; `registry` says how
    /// the extensions of the type are shown.
    pub open spec fn record(self, outcome: Option<FileTallyView>, registry: Seq<FileTypeView>) -> ReportView {
        match outcome {
            None => self.record_ignored(),
            Some(tally) => self.record_file(tally, extensions_display(registry, tally.file_type)),
        }
    }

    /// Whether every number fits in 64 bits.
    pub open spec fn fits(self) -> bool {
        &&& self.files_total <= u64::MAX
        &&& forall|name: Seq<char>| #[trigger]
            self.rows.dom().contains(name) ==> self.rows[name].fits()
    }

    /// Whether `other` has every row of this report, and no number is larger
    /// here than there.
    pub open spec fn le(self, other: ReportView) -> bool {
        &&& self.files_total <= other.files_total
        &&& self.files_ignored <= other.files_ignored
        &&& forall|name: Seq<char>| #[trigger]
            self.rows.dom().contains(name) ==> other.rows.dom().contains(name)
                && self.rows[name].le(other.rows[name])
    }
}

/// The report of the files with these outcomes, taken in order.
pub open spec fn report_of(outcomes: Seq<Option<FileTallyView>>, registry: Seq<FileTypeView>) -> ReportView
    decreases outcomes.len(),
{
    if outcomes.len() == 0 {
        ReportView::empty()
    } else {
        report_of(outcomes.drop_last(), registry).record(outcomes.last(), registry)
    }
}

/// The names of the file types in the order in which they first have a file
/// among the files with these outcomes.
pub open spec fn row_order_of(outcomes: Seq<Option<FileTallyView>>) -> Seq<Seq<char>>
    decreases outcomes.len(),
{
    if outcomes.len() == 0 {
        Seq::empty()
    } else {
        let before = row_order_of(outcomes.drop_last());
        match outcomes.last() {
            Some(tally) => if before.contains(tally.file_type) {
                before
            } else {
                before.push(tally.file_type)
            },
            None => before,
        }
    }
}

/// The text of the row of the file type called `name`.
pub open spec fn row_text(name: Seq<char>, row: RowView) -> Seq<char> {
    "\n--- "@ + name + " ("@ + row.extensions + ") ---\n  Files: "@ + decimal(row.files)
        + "\n  Lines:\n    Code: "@ + decimal(row.counts.code) + "\n    Empty: "@ + decimal(
        row.counts.blank,
    ) + "\n    Comment-only: "@ + decimal(row.counts.comment)
}

/// The texts of the rows of the file types called `order`, one after the other.
pub open spec fn rows_text(order: Seq<Seq<char>>, rows: Map<Seq<char>, RowView>) -> Seq<char>
    decreases order.len(),
{
    if order.len() == 0 {
        Seq::empty()
    } else {
        rows_text(order.drop_last(), rows) + row_text(order.last(), rows[order.last()])
    }
}

/// The text of a report whose rows are shown in `order`: the numbers of files
/// first, then each row.
pub open spec fn report_text(report: ReportView, order: Seq<Seq<char>>) -> Seq<char> {
    "--- Report ---\n  Files total: "@ + decimal(report.files_total) + "\n  Files ignored: "@
        + decimal(report.files_ignored) + "\n  Files scanned: "@ + decimal(
        (report.files_total - report.files_ignored) as nat,
    ) + rows_text(order, report.rows)
}

/// A report only grows with each file.
pub proof fn lemma_record_grows(report: ReportView, outcome: Option<FileTallyView>, registry: Seq<FileTypeView>)
    ensures
        report.le(report.record(outcome, registry)),
{
}

/// The report of the first `k` files is within the report of all.
pub proof fn lemma_report_of_prefix(outcomes: Seq<Option<FileTallyView>>, registry: Seq<FileTypeView>, k: int)
    requires
        0 <= k <= outcomes.len(),
    ensures
        report_of(outcomes.take(k), registry).le(report_of(outcomes, registry)),
    decreases outcomes.len() - k,
{
    if k == outcomes.len() {
        assert(outcomes.take(k) =~= outcomes);
    } else {
        lemma_report_of_prefix(outcomes, registry, k + 1);
        let shorter = outcomes.take(k);
        let longer = outcomes.take(k + 1);
        assert(longer.drop_last() =~= shorter);
        lemma_record_grows(report_of(shorter, registry), longer.last(), registry);
    }
}

/// What fits stays fitting when it is made smaller.
pub proof fn lemma_fits_within(smaller: ReportView, larger: ReportView)
    requires
        smaller.le(larger),
        larger.fits(),
    ensures
        smaller.fits(),
{
    assert forall|name: Seq<char>| #[trigger]
        smaller.rows.dom().contains(name) implies smaller.rows[name].fits() by {
        assert(larger.rows.dom().contains(name));
    }
}

/// Fewer files are left out than are seen, or as many.
pub proof fn lemma_report_of_ignored(outcomes: Seq<Option<FileTallyView>>, registry: Seq<FileTypeView>)
    ensures
        report_of(outcomes, registry).files_ignored <= report_of(outcomes, registry).files_total,
        report_of(outcomes, registry).files_total == outcomes.len(),
    decreases outcomes.len(),
{
    if outcomes.len() > 0 {
        lemma_report_of_ignored(outcomes.drop_last(), registry);
    }
}

/// The sums of one file type in a report.
#[derive(Clone, Debug, PartialEq, Eq)]
pub struct CodeAnalysisReportRow {
    /// The name of the file type.
    pub name: String,
    /// The extensions of the file type, with a comma and a space between each two.
    pub text_files_extensions: String,
    pub code_lines_count: u64,
    pub comment_lines_count: u64,
    pub empty_lines_count: u64,
    pub files_count: u64,
}

impl View for CodeAnalysisReportRow {
    type V = RowView;

    open spec fn view(&self) -> RowView {
        RowView {
            extensions: self.text_files_extensions@,
            files: self.files_count as nat,
            counts: LineCounts {
                code: self.code_lines_count as nat,
                comment: self.comment_lines_count as nat,
                blank: self.empty_lines_count as nat,
            },
        }
    }
}

/// The names of the file types of `rows`, in order.
pub open spec fn row_names(rows: Seq<CodeAnalysisReportRow>) -> Seq<Seq<char>> {
    rows.map_values(|r: CodeAnalysisReportRow| r.name@)
}

/// Whether `rows[i]` is the row of the file type called `name`.
pub open spec fn is_row_of(rows: Seq<CodeAnalysisReportRow>, name: Seq<char>, i: int) -> bool {
    0 <= i < rows.len() && rows[i].name@ == name
}

/// Whether no two of `rows` are of one file type.
pub open spec fn rows_distinct(rows: Seq<CodeAnalysisReportRow>) -> bool {
    forall|i: int, j: int|
        0 <= i < j < rows.len() ==> (#[trigger] rows[i]).name@ != (#[trigger] rows[j]).name@
}

/// The `rows` by the names of their file types.
pub open spec fn rows_by_name(rows: Seq<CodeAnalysisReportRow>) -> Map<Seq<char>, RowView> {
    Map::new(
        |name: Seq<char>| exists|i: int| is_row_of(rows, name, i),
        |name: Seq<char>| rows[choose|i: int| is_row_of(rows, name, i)]@,
    )
}

/// A row of a new file type, put at the end, is a new entry by its name.
pub proof fn lemma_rows_by_name_push(rows: Seq<CodeAnalysisReportRow>, row: CodeAnalysisReportRow)
    requires
        rows_distinct(rows),
        !rows_by_name(rows).dom().contains(row.name@),
    ensures
        rows_distinct(rows.push(row)),
        rows_by_name(rows.push(row)) == rows_by_name(rows).insert(row.name@, row@),
{
    let after = rows.push(row);
    assert forall|i: int, j: int| 0 <= i < j < after.len() implies (#[trigger] after[i]).name@ != (
    #[trigger] after[j]).name@ by {
        if j == rows.len() {
            assert(!is_row_of(rows, row.name@, i));
        }
    }
    assert forall|name: Seq<char>|
        rows_by_name(after).dom().contains(name) <==> rows_by_name(rows).insert(
            row.name@,
            row@,
        ).dom().contains(name) by {
        if rows_by_name(after).dom().contains(name) {
            let i: int = choose|i: int| is_row_of(after, name, i);
            if i < rows.len() {
                assert(is_row_of(rows, name, i));
            }
        }
        if rows_by_name(rows).dom().contains(name) {
            let i: int = choose|i: int| is_row_of(rows, name, i);
            assert(is_row_of(after, name, i));
        }
        if name == row.name@ {
            assert(is_row_of(after, name, rows.len() as int));
        }
    }
    assert forall|name: Seq<char>| rows_by_name(after).dom().contains(name) implies rows_by_name(
        after,
    )[name] == rows_by_name(rows).insert(row.name@, row@)[name] by {
        let i: int = choose|i: int| is_row_of(after, name, i);
        if name == row.name@ {
            if i < rows.len() {
                assert(is_row_of(rows, name, i));
            }
        } else {
            assert(is_row_of(rows, name, i));
            let k: int = choose|k: int| is_row_of(rows, name, k);
            assert(i == k);
        }
    }
    assert(rows_by_name(after) =~= rows_by_name(rows).insert(row.name@, row@));
}

/// A row put in the place of the row of the same file type is the new entry of
/// its name.
pub proof fn lemma_rows_by_name_update(rows: Seq<CodeAnalysisReportRow>, at: int, row: CodeAnalysisReportRow)
    requires
        rows_distinct(rows),
        0 <= at < rows.len(),
        rows[at].name@ == row.name@,
    ensures
        rows_distinct(rows.update(at, row)),
        rows_by_name(rows.update(at, row)) == rows_by_name(rows).insert(row.name@, row@),
{
    let after = rows.update(at, row);
    assert forall|i: int, j: int| 0 <= i < j < after.len() implies (#[trigger] after[i]).name@ != (
    #[trigger] after[j]).name@ by {
        assert(after[i].name@ == rows[i].name@);
        assert(after[j].name@ == rows[j].name@);
    }
    assert forall|name: Seq<char>|
        rows_by_name(after).dom().contains(name) <==> rows_by_name(rows).insert(
            row.name@,
            row@,
        ).dom().contains(name) by {
        if rows_by_name(after).dom().contains(name) {
            let i: int = choose|i: int| is_row_of(after, name, i);
            assert(is_row_of(rows, name, i));
        }
        if rows_by_name(rows).dom().contains(name) {
            let i: int = choose|i: int| is_row_of(rows, name, i);
            assert(is_row_of(after, name, i));
        }
        if name == row.name@ {
            assert(is_row_of(after, name, at));
        }
    }
    assert forall|name: Seq<char>| rows_by_name(after).dom().contains(name) implies rows_by_name(
        after,
    )[name] == rows_by_name(rows).insert(row.name@, row@)[name] by {
        let i: int = choose|i: int| is_row_of(after, name, i);
        assert(is_row_of(rows, name, i));
        if name == row.name@ {
            assert(i == at);
        } else {
            let k: int = choose|k: int| is_row_of(rows, name, k);
            assert(i == k);
        }
    }
    assert(rows_by_name(after) =~= rows_by_name(rows).insert(row.name@, row@));
}

/// The result of an analysis: how many files were seen, how many of them were
/// left out, and the sums of each file type that had a file.
#[derive(Debug)]
pub struct CodeAnalysisReport {
    files_total: u64,
    files_ignored: u64,
    rows: Vec<CodeAnalysisReportRow>,
}

impl View for CodeAnalysisReport {
    type V = ReportView;

    closed spec fn view(&self) -> ReportView {
        ReportView {
            files_total: self.files_total as nat,
            files_ignored: self.files_ignored as nat,
            rows: rows_by_name(self.rows@),
        }
    }
}

impl CodeAnalysisReport {
    #[verifier::type_invariant]
    spec fn well_formed(self) -> bool {
        &&& self.files_ignored <= self.files_total
        &&& rows_distinct(self.rows@)
    }

    /// The names of the file types that have a row, in the order of the rows.
    pub closed spec fn row_order(&self) -> Seq<Seq<char>> {
        row_names(self.rows@)
    }

    /// The report of no file.
    pub(crate) fn new() -> (report: CodeAnalysisReport)
        ensures
            report@ == ReportView::empty(),
            report.row_order() == Seq::<Seq<char>>::empty(),
    {
        let report = CodeAnalysisReport { files_total: 0, files_ignored: 0, rows: Vec::new() };
        assert(report@.rows =~= Map::empty());
        assert(report.row_order() =~= Seq::empty());
        report
    }

    /// The number of files seen.
    pub fn files_total(&self) -> (n: u64)
        ensures
            n == self@.files_total,
    {
        self.files_total
    }

    /// The number of files that were left out.
    pub fn files_ignored(&self) -> (n: u64)
        ensures
            n == self@.files_ignored,
    {
        self.files_ignored
    }

    /// The number of files that were counted.
    pub fn files_scanned(&self) -> (n: u64)
        ensures
            n == self@.files_total - self@.files_ignored,
    {
        proof {
            use_type_invariant(self);
        }
        self.files_total - self.files_ignored
    }

    /// The rows, one for each file type that had a file, in the order in which
    /// the file types first had one.
    pub fn rows(&self) -> (rows: &Vec<CodeAnalysisReportRow>)
        ensures
            rows_distinct(rows@),
            rows_by_name(rows@) == self@.rows,
            row_names(rows@) == self.row_order(),
    {
        proof {
            use_type_invariant(self);
        }
        &self.rows
    }

    /// The place of the row of the file type called `name`.
    fn position(&self, name: &String) -> (found: Option<usize>)
        ensures
            match found {
                Some(i) => is_row_of(self.rows@, name@, i as int),
                None => !self@.rows.dom().contains(name@),
            },
    {
        let mut i: usize = 0;
        while i < self.rows.len()
            invariant
                i <= self.rows@.len(),
                forall|k: int| 0 <= k < i ==> !is_row_of(self.rows@, name@, k),
            decreases self.rows.len() - i,
        {
            if self.rows[i].name == *name {
                return Some(i);
            }
            i += 1;
        }
        None
    }

    /// The row of the file type called `name`, if a file of that type was counted.
    pub fn row(&self, name: &str) -> (row: Option<&CodeAnalysisReportRow>)
        ensures
            match row {
                Some(r) => self@.rows.dom().contains(name@) && r@ == self@.rows[name@] && r.name@
                    == name@,
                None => !self@.rows.dom().contains(name@),
            },
    {
        proof {
            use_type_invariant(self);
        }
        let wanted = name.to_owned();
        match self.position(&wanted) {
            Some(i) => {
                proof {
                    let k: int = choose|k: int| is_row_of(self.rows@, name@, k);
                    assert(is_row_of(self.rows@, name@, i as int));
                    assert(k == i);
                }
                Some(&self.rows[i])
            },
            None => None,
        }
    }

    /// This report and one more file, which is left out; nothing where the
    /// number of files no longer fits in 64 bits.
    pub(crate) fn record_ignored(self) -> (report: Option<CodeAnalysisReport>)
        ensures
            match report {
                Some(r) => r@ == self@.record_ignored() && self@.record_ignored().fits()
                    && r.row_order() == self.row_order(),
                None => !self@.record_ignored().fits(),
            },
    {
        proof {
            use_type_invariant(&self);
        }
        let CodeAnalysisReport { files_total, files_ignored, rows } = self;
        match files_total.checked_add(1) {
            Some(total) => Some(
                CodeAnalysisReport { files_total: total, files_ignored: files_ignored + 1, rows },
            ),
            None => None,
        }
    }

    /// This report and one more file: a file of type `file_type`, with the
    /// counts `tally`; nothing where a number no longer fits in 64 bits.
    pub(crate) fn record_file(self, file_type: &TextFileDescription, tally: LineTally) -> (report:
        Option<CodeAnalysisReport>)
        ensures
            match report {
                Some(r) => r@ == self@.record_file(
                    FileTallyView { file_type: file_type.name@, counts: tally@ },
                    join(file_type@.extensions, ", "@),
                ) && r@.fits() && r.row_order() == if self.row_order().contains(file_type.name@) {
                    self.row_order()
                } else {
                    self.row_order().push(file_type.name@)
                },
                None => !self@.record_file(
                    FileTallyView { file_type: file_type.name@, counts: tally@ },
                    join(file_type@.extensions, ", "@),
                ).fits(),
            },
    {
        proof {
            use_type_invariant(&self);
        }
        let ghost after = self@.record_file(
            FileTallyView { file_type: file_type.name@, counts: tally@ },
            join(file_type@.extensions, ", "@),
        );
        assert(after.rows.dom().contains(file_type.name@));
        let found = self.position(&file_type.name);
        let CodeAnalysisReport { files_total, files_ignored, mut rows } = self;
        let ghost rows_before = rows@;
        let total = match files_total.checked_add(1) {
            Some(total) => total,
            None => {
                return None;
            },
        };
        match found {
            Some(i) => {
                proof {
                    let k: int = choose|k: int| is_row_of(rows_before, file_type.name@, k);
                    assert(is_row_of(rows_before, file_type.name@, i as int));
                    assert(k == i);
                }
                let row = &mut rows[i];
                let sums = (
                    row.files_count.checked_add(1),
                    row.code_lines_count.checked_add(tally.code_lines_count),
                    row.comment_lines_count.checked_add(tally.comment_lines_count),
                    row.empty_lines_count.checked_add(tally.empty_lines_count),
                );
                match sums {
                    (Some(files), Some(code), Some(comment), Some(empty)) => {
                        row.files_count = files;
                        row.code_lines_count = code;
                        row.comment_lines_count = comment;
                        row.empty_lines_count = empty;
                    },
                    _ => {
                        assert(!after.rows[file_type.name@].fits());
                        return None;
                    },
                }
                proof {
                    assert(rows@ =~= rows_before.update(i as int, rows@[i as int]));
                    lemma_rows_by_name_update(rows_before, i as int, rows@[i as int]);
                    assert(row_names(rows@) =~= row_names(rows_before));
                    assert(row_names(rows_before)[i as int] == file_type.name@);
                }
            },
            None => {
                let row = CodeAnalysisReportRow {
                    name: file_type.name.clone(),
                    text_files_extensions: join_strings(&file_type.extensions, ", "),
                    code_lines_count: tally.code_lines_count,
                    comment_lines_count: tally.comment_lines_count,
                    empty_lines_count: tally.empty_lines_count,
                    files_count: 1,
                };
                proof {
                    lemma_rows_by_name_push(rows_before, row);
                    assert forall|k: int| 0 <= k < rows_before.len() implies row_names(
                        rows_before,
                    )[k] != file_type.name@ by {
                        assert(!is_row_of(rows_before, file_type.name@, k));
                    }
                }
                rows.push(row);
                assert(row_names(rows@) =~= row_names(rows_before).push(file_type.name@));
            },
        }
        let report = CodeAnalysisReport { files_total: total, files_ignored, rows };
        proof {
            assert forall|name: Seq<char>| #[trigger]
                report@.rows.dom().contains(name) implies report@.rows[name].fits() by {
                let k: int = choose|k: int| is_row_of(report.rows@, name, k);
                assert(report@.rows[name] == report.rows@[k]@);
            }
        }
        Some(report)
    }
}

/// The text of one row.
fn row_string(row: &CodeAnalysisReportRow) -> (text: String)
    ensures
        text@ == row_text(row.name@, row@),
{
    let mut text = String::new();
    text.append("\n--- ");
    text.append(row.name.as_str());
    text.append(" (");
    text.append(row.text_files_extensions.as_str());
    text.append(") ---\n  Files: ");
    text.append(decimal_string(row.files_count).as_str());
    text.append("\n  Lines:\n    Code: ");
    text.append(decimal_string(row.code_lines_count).as_str());
    text.append("\n    Empty: ");
    text.append(decimal_string(row.empty_lines_count).as_str());
    text.append("\n    Comment-only: ");
    text.append(decimal_string(row.comment_lines_count).as_str());
    assert(text@ =~= row_text(row.name@, row@));
    text
}

impl CodeAnalysisReport {
    /// The report as text: the numbers of files first, then each row, in the
    /// order of the rows.
    pub fn render(&self) -> (text: String)
        ensures
            text@ == report_text(self@, self.row_order()),
    {
        proof {
            use_type_invariant(self);
        }
        let mut text = String::new();
        text.append("--- Report ---\n  Files total: ");
        text.append(decimal_string(self.files_total).as_str());
        text.append("\n  Files ignored: ");
        text.append(decimal_string(self.files_ignored).as_str());
        text.append("\n  Files scanned: ");
        text.append(decimal_string(self.files_total - self.files_ignored).as_str());
        let ghost head = text@;
        let ghost order = self.row_order();
        assert(head =~= report_text(self@, Seq::empty()));
        assert(order.take(0) =~= Seq::empty());
        let mut i: usize = 0;
        while i < self.rows.len()
            invariant
                i <= self.rows@.len(),
                order == row_names(self.rows@),
                rows_distinct(self.rows@),
                head == report_text(self@, Seq::empty()),
                text@ == head + rows_text(order.take(i as int), self@.rows),
            decreases self.rows.len() - i,
        {
            let row = &self.rows[i];
            text.append(row_string(row).as_str());
            proof {
                let longer = order.take(i + 1);
                assert(longer.drop_last() =~= order.take(i as int));
                assert(longer.last() == row.name@);
                assert(is_row_of(self.rows@, row.name@, i as int));
                let k: int = choose|k: int| is_row_of(self.rows@, row.name@, k);
                assert(k == i);
                assert(self@.rows[row.name@] == row@);
                assert(text@ =~= head + rows_text(longer, self@.rows));
            }
            i += 1;
        }
        assert(order.take(self.rows@.len() as int) =~= order);
        assert(text@ =~= report_text(self@, order));
        text
    }
}

} // verus!
