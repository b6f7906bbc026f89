//! What the views of a report hold of it.
use vstd::prelude::*;
use crate::analyze::{
    function_precedes, identified, in_tests, reports_file, test_file_count, AnalyzedFile,
    SourceFile,
};
use crate::deltas::FunctionChange;
use crate::diff::Comparison;
use crate::explain::{
    all_changes, compact_precedes, compacts, compacts_diff, first_file, has_name_of, has_path,
    meant_file, selection, CompactAnalysis, CompactDiff,
};
use crate::model::{
    Category, FileAnalysis, FileReport, FunctionReport, OutputFormat, Report, SortBy,
};
use crate::modules::PlacedModule;
use crate::options::{option_conflict, AnalysisOptions};
use crate::order::{
    order_pair, order_triple, sorted, sorted_is_ordered, sorted_length, text_order,
    text_order_is_total,
};
use crate::path_laws::{names_stand_last, plain_name, within};
use crate::paths::{components, file_name, shown_path, with_slashes};
use crate::ranking::ranked;
use crate::sums::{total, total_push};
use crate::text::joined_upto;

verus! {

/// A compact view holds the first callables of the ranking, as many as are asked for
/// or as there are, and says how many there are. It is of production code, of tests
/// where these are asked for, and of both where all is.
pub proof fn compact_views_start_the_ranking(
    view: CompactAnalysis,
    report: Report,
    top: usize,
    tests: bool,
    all: bool,
    sort: SortBy,
)
    requires
        compacts(view, report, top, selection(tests, all), sort),
    ensures
        ({
            let listed = ranked(report.files@, selection(tests, all), sort);
            &&& view.total == listed.len()
            &&& view.functions@.len() == view.returned
            &&& view.returned <= top
            &&& view.returned <= view.total
            &&& view.returned == top || view.returned == view.total
            &&& forall|index: int|
                0 <= index < view.functions@.len() ==> {
                    let shown = #[trigger] view.functions@[index];
                    let meant = listed[index];
                    &&& shown.path == meant.file.path
                    &&& shown.language == meant.file.language
                    &&& shown.name == meant.function.name
                    &&& shown.kind == meant.function.kind
                    &&& shown.category == meant.function.category
                    &&& shown.location == meant.function.location
                    &&& shown.lines == meant.function.lines
                    &&& shown.tokens == meant.function.tokens
                    &&& shown.score.units == meant.function.score.units
                }
            &&& view.selected_categories@.contains(Category::Production) <==> all || !tests
            &&& view.selected_categories@.contains(Category::Test) <==> all || tests
        }),
{
    let list = view.selected_categories@;
    if all {
        assert(list =~= seq![Category::Production, Category::Test]);
        assert(list[0] == Category::Production && list[1] == Category::Test);
    } else if tests {
        assert(list =~= seq![Category::Test]);
        assert(list[0] == Category::Test);
    } else {
        assert(list =~= seq![Category::Production]);
        assert(list[0] == Category::Production);
    }
}

/// A compact comparison holds the changes with the largest differences, up or down, as
/// many as are asked for or as there are, and counts all changes of each kind.
pub proof fn compact_comparisons_start_with_the_largest(
    view: CompactDiff,
    comparison: Comparison,
    top: usize,
    left: int,
    right: int,
)
    requires
        compacts_diff(view, comparison, top),
        0 <= left < right < all_changes(comparison).len(),
    ensures
        view.total == comparison.functions.changed@.len() + comparison.functions.moved@.len()
            + comparison.functions.added@.len() + comparison.functions.removed@.len(),
        view.functions@.len() == view.returned,
        view.returned <= top,
        view.returned == top || view.returned == view.total,
        left < view.functions@.len() ==> {
            let first = view.functions@[left].delta;
            let second = all_changes(comparison)[right].delta;
            -first <= second <= first || first <= second <= -first
        },
{
    let order = compact_precedes();
    let listed = comparison.functions.changed@ + comparison.functions.moved@
        + comparison.functions.added@ + comparison.functions.removed@;
    text_order_is_total();
    assert forall|first: FunctionChange, second: FunctionChange| #[trigger]
        order(first, second) || order(second, first) by {
        order_pair(text_order(), first.path@, second.path@);
        order_pair(text_order(), first.name@, second.name@);
    }
    assert forall|first: FunctionChange, middle: FunctionChange, second: FunctionChange| #[trigger]
        order(first, middle) && #[trigger] order(middle, second) implies order(first, second) by {
        order_triple(text_order(), first.path@, middle.path@, second.path@);
        order_pair(text_order(), first.path@, middle.path@);
        order_pair(text_order(), middle.path@, second.path@);
        order_triple(text_order(), first.name@, middle.name@, second.name@);
        order_pair(text_order(), first.name@, middle.name@);
        order_pair(text_order(), middle.name@, second.name@);
    }
    sorted_is_ordered(listed, order);
    sorted_length(listed, order);
    let all = all_changes(comparison);
    assert(order(all[left], all[right]));
}

proof fn lemma_first_file(
    files: Seq<FileReport>,
    wanted: spec_fn(FileReport) -> bool,
    count: nat,
)
    requires
        count <= files.len(),
    ensures
        match first_file(files, wanted, count) {
            Some(index) => 0 <= index < count && wanted(files[index]) && forall|earlier: int|
                0 <= earlier < index ==> !wanted(#[trigger] files[earlier]),
            None => forall|earlier: int| 0 <= earlier < count ==> !wanted(#[trigger] files[earlier]),
        },
    decreases count,
{
    if count > 0 {
        lemma_first_file(files, wanted, (count - 1) as nat);
    }
}

/// A path means the file that is shown under it; where there is none, it means the
/// first file of its name, and where there is none of these, no file.
pub proof fn paths_mean_files(report: Report, path: Seq<char>)
    ensures
        ({
            let shown = shown_path(path, report.root@);
            let files = report.files@;
            match meant_file(report, path) {
                Some(index) => {
                    &&& 0 <= index < files.len()
                    &&& files[index].path@ != shown ==> {
                        &&& file_name(files[index].path@) is Some
                        &&& file_name(files[index].path@) == file_name(path)
                        &&& forall|other: int|
                            0 <= other < files.len() ==> (#[trigger] files[other]).path@ != shown
                        &&& forall|earlier: int|
                            0 <= earlier < index ==> file_name((#[trigger] files[earlier]).path@)
                                != file_name(path)
                    }
                },
                None => forall|other: int|
                    0 <= other < files.len() ==> (#[trigger] files[other]).path@ != shown && (
                    file_name(files[other].path@) is None || file_name(files[other].path@)
                        != file_name(path)),
            }
        }),
{
    let by_path = has_path(shown_path(path, report.root@));
    let by_name = has_name_of(path);
    let files = report.files@;
    lemma_first_file(files, by_path, files.len());
    lemma_first_file(files, by_name, files.len());
    assert forall|other: int| 0 <= other < files.len() implies by_path(#[trigger] files[other])
        == (files[other].path@ == shown_path(path, report.root@)) by {}
    assert forall|other: int| 0 <= other < files.len() implies by_name(#[trigger] files[other])
        == (file_name(files[other].path@) is Some && file_name(files[other].path@) == file_name(
        path,
    )) by {}
}

/// A file that lies directly in the root is shown by its name.
pub proof fn files_are_shown_from_the_root(root: Seq<char>, name: Seq<char>)
    requires
        root.len() > 0,
        plain_name(name),
        !name.contains('\\'),
    ensures
        shown_path(within(root, name), root) == name,
{
    let path = within(root, name);
    names_stand_last(root, name);
    assert(path[0] == root[0]);
    assert(components(path).take(components(root).len() as int) =~= components(root));
    let rest = components(path).skip(components(root).len() as int);
    assert(rest =~= seq![name]);
    reveal_with_fuel(joined_upto, 2);
    assert(with_slashes(name) =~= name) by {
        assert forall|index: int| 0 <= index < name.len() implies with_slashes(name)[index]
            == #[trigger] name[index] by {
            assert(name[index] != '\\');
        }
    }
}

/// The callables of a file stand in the order in which they start.
pub proof fn callables_stand_as_in_source(
    analyzed: AnalyzedFile,
    file: SourceFile,
    analysis: FileAnalysis,
    root: Seq<char>,
    left: int,
    right: int,
)
    requires
        reports_file(analyzed, file, analysis, root),
        0 <= left < right < analyzed.file.functions@.len(),
    ensures
        analyzed.file.functions@.len() == analysis.functions@.len(),
        ({
            let first = analyzed.file.functions@[left].location.start;
            let second = analyzed.file.functions@[right].location.start;
            first.line < second.line || (first.line == second.line && first.column
                <= second.column)
        }),
{
    reveal(reports_file);
    let order = function_precedes();
    let path = shown_path(file.path@, root);
    let marked = choose|marked: Seq<FunctionReport>| #[trigger]
        identified(marked, analysis.functions@, path, file.language)
            && analyzed.file.functions@ == sorted(marked, order);
    text_order_is_total();
    assert forall|first: FunctionReport, second: FunctionReport| #[trigger]
        order(first, second) || order(second, first) by {
        order_pair(text_order(), first.name@, second.name@);
    }
    assert forall|first: FunctionReport, middle: FunctionReport, second: FunctionReport| #[trigger]
        order(first, middle) && #[trigger] order(middle, second) implies order(first, second) by {
        order_triple(text_order(), first.name@, middle.name@, second.name@);
        order_pair(text_order(), first.name@, middle.name@);
        order_pair(text_order(), middle.name@, second.name@);
    }
    sorted_is_ordered(marked, order);
    sorted_length(marked, order);
    let all = analyzed.file.functions@;
    assert(order(all[left], all[right]));
}

/// The test files of a report are those that are tests by where they are, and those
/// that tests alone reach.
pub proof fn test_files_are_counted_once(
    files: Seq<SourceFile>,
    modules: Seq<Vec<PlacedModule>>,
    count: nat,
)
    requires
        count <= files.len(),
    ensures
        test_file_count(files, modules, count) == total(
            Seq::new(
                count,
                |index: int|
                    match files[index].category {
                        Category::Test => 1nat,
                        Category::Production => if in_tests(files, modules, index) {
                            1nat
                        } else {
                            0nat
                        },
                    },
            ),
        ),
    decreases count,
{
    let one = |index: int|
        match files[index].category {
            Category::Test => 1nat,
            Category::Production => if in_tests(files, modules, index) {
                1nat
            } else {
                0nat
            },
        };
    if count == 0 {
        assert(Seq::new(0, one) =~= Seq::<nat>::empty());
    } else {
        let fewer = (count - 1) as nat;
        test_files_are_counted_once(files, modules, fewer);
        assert(Seq::new(count, one) =~= Seq::new(fewer, one).push(one(count - 1)));
        total_push(Seq::new(fewer, one), one(count - 1));
    }
}

/// Options go together unless tests alone and all are both asked for, or a compact view
/// is asked for in a form other than JSON.
pub proof fn options_go_together(options: AnalysisOptions)
    ensures
        option_conflict(options) is None <==> !(options.tests && options.all) && (
        !options.compact || options.format == OutputFormat::Json),
{
}

}
