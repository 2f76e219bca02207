//! What holds of the analysis whatever the files and file types are.

use vstd::prelude::*;
use vstd::seq_lib::{commutative_foldl, lemma_fold_left_permutation};
use crate::analyzer::{analysis_of, outcomes_of, tree_report, SourceFileView};
use crate::classify::{classify, count_content, lemma_count_lines_total, LineCategory};
use crate::config::{CommentMarkers, FileTypeView};
use crate::file_name::extension_of;
use crate::registry::{
    file_type_of, is_first_named, lemma_register_keeps_names_distinct, names_distinct, registry_of,
};
use crate::report::{
    analysis_view, report_of, row_order_of, FileAnalysisReport, FileTallyView, ReportView,
};
use crate::text::{is_blank, lemma_trim_of_blank, split_lines};

verus! {

/// No two file types of a registry have one name, whatever it was built from.
pub proof fn lemma_registry_names_distinct(file_types: Seq<FileTypeView>)
    ensures
        names_distinct(registry_of(file_types)),
    decreases file_types.len(),
{
    if file_types.len() > 0 {
        lemma_registry_names_distinct(file_types.drop_last());
        lemma_register_keeps_names_distinct(registry_of(file_types.drop_last()), file_types.last());
    }
}

/// Where no two file types have one name, the registry holds them as they are given.
pub proof fn lemma_registry_of_distinct(file_types: Seq<FileTypeView>)
    requires
        names_distinct(file_types),
    ensures
        registry_of(file_types) == file_types,
    decreases file_types.len(),
{
    if file_types.len() > 0 {
        let front = file_types.drop_last();
        let last = file_types.last();
        assert forall|i: int, j: int| 0 <= i < j < front.len() implies (#[trigger] front[i]).name != (
        #[trigger] front[j]).name by {
            assert(front[i] == file_types[i]);
            assert(front[j] == file_types[j]);
        }
        lemma_registry_of_distinct(front);
        assert forall|i: int| !is_first_named(front, last.name, i) by {
            if 0 <= i < front.len() {
                assert(front[i] == file_types[i]);
                assert(file_types[i].name != file_types[file_types.len() - 1].name);
            }
        }
        assert(front.push(last) =~= file_types);
    }
}

/// A line of nothing but whitespace is blank whatever the markers are and
/// whether or not a block comment is open, and it leaves the block comment as
/// it was. No other line is blank.
pub proof fn lemma_blank_line_comes_first(line: Seq<char>, markers: CommentMarkers, in_block: bool)
    ensures
        is_blank(line) ==> classify(line, markers, in_block) == (LineCategory::Blank, in_block),
        !is_blank(line) ==> classify(line, markers, in_block).0 != LineCategory::Blank,
{
    lemma_trim_of_blank(line);
}

/// A line inside a block comment is never code.
pub proof fn lemma_no_code_inside_block(line: Seq<char>, markers: CommentMarkers)
    ensures
        classify(line, markers, true).0 != LineCategory::Code,
{
}

/// The lines of code, the comment lines and the blank lines of a file are
/// together all its lines.
pub proof fn lemma_counts_sum_to_lines(content: Seq<char>, markers: CommentMarkers)
    ensures
        count_content(content, markers).total() == split_lines(content).len(),
{
    lemma_count_lines_total(split_lines(content), markers, false);
}

/// Where a file is analysed, its three counts are together the number of its lines.
pub proof fn lemma_analysis_sums_to_lines(
    registry: Seq<FileTypeView>,
    file_name: Seq<char>,
    content: Seq<char>,
)
    ensures
        analysis_of(registry, file_name, content) matches Some(tally) ==> tally.counts.total()
            == split_lines(content).len(),
{
    if let Some(tally) = analysis_of(registry, file_name, content) {
        let file_type = file_type_of(registry, extension_of(file_name).unwrap()).unwrap();
        lemma_counts_sum_to_lines(content, file_type.markers);
    }
}

/// Analysing one file twice gives the same: two results that are each what
/// the analysis of this file under these file types gives say the same.
pub proof fn lemma_analysis_repeats(
    registry: Seq<FileTypeView>,
    file_name: Seq<char>,
    content: Seq<char>,
    first: Option<FileAnalysisReport>,
    second: Option<FileAnalysisReport>,
)
    requires
        analysis_view(first) == analysis_of(registry, file_name, content),
        analysis_view(second) == analysis_of(registry, file_name, content),
    ensures
        analysis_view(first) == analysis_view(second),
        first is Some <==> second is Some,
        first is Some ==> {
            &&& first.unwrap().file_type@ == second.unwrap().file_type@
            &&& first.unwrap().code_lines_count == second.unwrap().code_lines_count
            &&& first.unwrap().comment_lines_count == second.unwrap().comment_lines_count
            &&& first.unwrap().empty_lines_count == second.unwrap().empty_lines_count
        },
{
}

/// The rows of a report are shown once each: the order of the rows names
/// every file type that has a row, and none twice.
pub proof fn lemma_row_order_names_the_rows(
    outcomes: Seq<Option<FileTallyView>>,
    registry: Seq<FileTypeView>,
)
    ensures
        row_order_of(outcomes).no_duplicates(),
        forall|name: Seq<char>|
            row_order_of(outcomes).contains(name) <==> report_of(
                outcomes,
                registry,
            ).rows.dom().contains(name),
    decreases outcomes.len(),
{
    if outcomes.len() > 0 {
        let front = outcomes.drop_last();
        lemma_row_order_names_the_rows(front, registry);
        let before = row_order_of(front);
        let after = row_order_of(outcomes);
        match outcomes.last() {
            Some(tally) => {
                if !before.contains(tally.file_type) {
                    assert forall|name: Seq<char>| after.contains(name) <==> (before.contains(name)
                        || name == tally.file_type) by {
                        if after.contains(name) {
                            let i: int = choose|i: int| 0 <= i < after.len() && after[i] == name;
                            if i < before.len() {
                                assert(before[i] == name);
                            }
                        }
                        if before.contains(name) {
                            let i: int = choose|i: int| 0 <= i < before.len() && before[i] == name;
                            assert(after[i] == name);
                        }
                        if name == tally.file_type {
                            assert(after[before.len() as int] == name);
                        }
                    }
                    assert forall|i: int, j: int|
                        0 <= i < after.len() && 0 <= j < after.len() && i != j implies after[i]
                        != after[j] by {
                        if i < before.len() && j < before.len() {
                            assert(before[i] == after[i] && before[j] == after[j]);
                        } else if i < before.len() {
                            assert(before[i] == after[i]);
                        } else {
                            assert(before[j] == after[j]);
                        }
                    }
                }
            },
            None => {},
        }
    }
}

/// Two files may change places in a report.
pub proof fn lemma_record_commutes(
    report: ReportView,
    first: Option<FileTallyView>,
    second: Option<FileTallyView>,
    registry: Seq<FileTypeView>,
)
    ensures
        report.record(first, registry).record(second, registry) == report.record(
            second,
            registry,
        ).record(first, registry),
{
    let one = report.record(first, registry).record(second, registry);
    let other = report.record(second, registry).record(first, registry);
    assert(one.rows =~= other.rows);
}

/// Taking one more file into a report, as a function of the report and the file.
spec fn recorder(registry: Seq<FileTypeView>) -> spec_fn(ReportView, Option<FileTallyView>) -> ReportView {
    |report: ReportView, outcome: Option<FileTallyView>| report.record(outcome, registry)
}

/// A report is the fold of its files, from the empty report on.
proof fn lemma_report_is_fold(outcomes: Seq<Option<FileTallyView>>, registry: Seq<FileTypeView>)
    ensures
        report_of(outcomes, registry) == outcomes.fold_left(ReportView::empty(), recorder(registry)),
    decreases outcomes.len(),
{
    if outcomes.len() > 0 {
        lemma_report_is_fold(outcomes.drop_last(), registry);
    }
}

/// The order in which the results of files are taken into a report does not
/// matter: the same results in another order give the same report.
pub proof fn lemma_report_order_irrelevant(
    first: Seq<Option<FileTallyView>>,
    second: Seq<Option<FileTallyView>>,
    registry: Seq<FileTypeView>,
)
    requires
        first.to_multiset() == second.to_multiset(),
    ensures
        report_of(first, registry) == report_of(second, registry),
{
    let step = recorder(registry);
    assert(commutative_foldl(step)) by {
        assert forall|x: Option<FileTallyView>, y: Option<FileTallyView>, v: ReportView| #[trigger]
            step(step(v, x), y) == step(step(v, y), x) by {
            lemma_record_commutes(v, x, y, registry);
        }
    }
    lemma_fold_left_permutation(first, second, step, ReportView::empty());
    lemma_report_is_fold(first, registry);
    lemma_report_is_fold(second, registry);
}

/// The same things in another order are, each with `f` applied, again the
/// same things in another order.
proof fn lemma_map_values_permutation<A, B>(first: Seq<A>, second: Seq<A>, f: spec_fn(A) -> B)
    requires
        first.to_multiset() == second.to_multiset(),
    ensures
        first.map_values(f).to_multiset() == second.map_values(f).to_multiset(),
    decreases first.len(),
{
    broadcast use vstd::seq_lib::group_to_multiset_ensures;

    if first.len() == 0 {
        assert(second.to_multiset().len() == 0);
        assert(first.map_values(f) =~= second.map_values(f));
    } else {
        let a = first.last();
        assert(first =~= first.drop_last().push(a));
        assert(first.to_multiset().count(a) > 0);
        assert(second.contains(a));
        let i: int = second.index_of(a);
        assert(first.drop_last().to_multiset() =~= second.remove(i).to_multiset());
        lemma_map_values_permutation(first.drop_last(), second.remove(i), f);
        let mapped = second.map_values(f);
        assert(first.map_values(f) =~= first.drop_last().map_values(f).push(f(a)));
        assert(mapped.remove(i) =~= second.remove(i).map_values(f));
        assert(mapped[i] == f(a));
        assert(mapped.contains(f(a)));
        assert(mapped.to_multiset() =~= mapped.remove(i).to_multiset().insert(f(a)));
    }
}

/// The order in which files are analysed does not matter: the same files in
/// another order give the same report.
pub proof fn lemma_tree_report_order_irrelevant(
    registry: Seq<FileTypeView>,
    first: Seq<SourceFileView>,
    second: Seq<SourceFileView>,
)
    requires
        first.to_multiset() == second.to_multiset(),
    ensures
        tree_report(registry, first) == tree_report(registry, second),
{
    lemma_map_values_permutation(
        first,
        second,
        |f: SourceFileView| analysis_of(registry, f.name, f.content),
    );
    lemma_report_order_irrelevant(
        outcomes_of(registry, first),
        outcomes_of(registry, second),
        registry,
    );
}

} // verus!
