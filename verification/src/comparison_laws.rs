//! When two reports are compared, and what a comparison says of their files.
use vstd::prelude::*;
use crate::delta_laws::lemma_files_kept;
use crate::diff::{
    added_burden_upto, added_count_upto, added_paths, agreement_issues, burden_delta,
    burden_or_none, compares, comparison_issues, comparison_warnings, coverage_issues,
    file_burden_views, file_burdens, file_set_differs, identity_issues, path_repeats,
    redistribution, reductions_upto, removed_paths, repeated_path_issues, same_contract,
    scope_issues, CompareOptions, Comparison, FileBurdenDelta,
};
use crate::diff_laws::{files_by_path_rise, paths_rise};
use crate::entries::{entries, EntryView};
use crate::matching::{ambiguous_upto, partners};
use crate::order::{
    lemma_sorted_holds, order_pair, order_triple, text_order, text_order_is_total, text_relation,
    Relation,
};
use crate::report_input::{
    file_pairs, files_by_path, pairs_from, path_precedes, FilePairView, InputBurden, InputFile,
    InputReport,
};
use crate::sums::{total, total_push};
use crate::text::blank;

verus! {

/// Whether one of the files has a path.
pub open spec fn has_path(files: Seq<InputFile>, path: Seq<char>) -> bool {
    exists|index: int| 0 <= index < files.len() && (#[trigger] files[index]).path@ == path
}

/// Whether no two files have one path.
pub open spec fn paths_differ(files: Seq<InputFile>) -> bool {
    forall|left: int, right: int|
        0 <= left < right < files.len() ==> (#[trigger] files[left]).path@ != (
        #[trigger] files[right]).path@
}

proof fn lemma_rise(files: Seq<InputFile>, left: int, right: int)
    requires
        paths_rise(files),
        0 <= left < right < files.len(),
    ensures
        text_relation(files[left].path@, files[right].path@) == Relation::Before,
{
}

/// Whether a pair of a merge says where its path is.
pub open spec fn pair_tells(
    before: Seq<InputFile>,
    after: Seq<InputFile>,
    pair: FilePairView,
) -> bool {
    &&& pair.before matches Some(file) ==> before.contains(file)
    &&& pair.after matches Some(file) ==> after.contains(file)
    &&& pair.before is None ==> pair.after is Some && !has_path(before, pair.path())
    &&& pair.after is None ==> pair.before is Some && !has_path(after, pair.path())
    &&& pair.before is Some && pair.after is Some ==> pair.before->Some_0.path@
        == pair.after->Some_0.path@
}

#[verifier::spinoff_prover]
proof fn lemma_alone(
    files: Seq<InputFile>,
    place: int,
    path: Seq<char>,
)
    requires
        paths_rise(files),
        0 <= place <= files.len(),
        forall|index: int|
            0 <= index < place ==> text_relation((#[trigger] files[index]).path@, path)
                == Relation::Before,
        place < files.len() ==> text_relation(path, files[place].path@) == Relation::Before,
    ensures
        !has_path(files, path),
{
    let order = text_order();
    text_order_is_total();
    assert forall|index: int| 0 <= index < files.len() implies (#[trigger] files[index]).path@
        != path by {
        order_pair(order, files[index].path@, path);
        order_pair(order, path, files[index].path@);
        if index > place {
            lemma_rise(files, place, index);
            order_triple(order, path, files[place].path@, files[index].path@);
        }
    }
}

/// Whether all files before a place come before all files from another place on.
spec fn cut(left: Seq<InputFile>, place: int, right: Seq<InputFile>, other: int) -> bool {
    forall|earlier: int, later: int|
        0 <= earlier < place && other <= later < right.len() ==> text_relation(
            (#[trigger] left[earlier]).path@,
            (#[trigger] right[later]).path@,
        ) == Relation::Before
}

proof fn lemma_cut(left: Seq<InputFile>, place: int, right: Seq<InputFile>, other: int)
    requires
        paths_rise(right),
        0 <= place < left.len(),
        0 <= other <= right.len(),
        cut(left, place, right, other),
        other < right.len() ==> text_relation(left[place].path@, right[other].path@)
            == Relation::Before,
    ensures
        cut(left, place + 1, right, other),
{
    text_order_is_total();
    assert forall|earlier: int, later: int|
        0 <= earlier < place + 1 && other <= later < right.len() implies text_relation(
        (#[trigger] left[earlier]).path@,
        (#[trigger] right[later]).path@,
    ) == Relation::Before by {
        if earlier == place && later > other {
            lemma_rise(right, other, later);
            order_triple(
                text_order(),
                left[place].path@,
                right[other].path@,
                right[later].path@,
            );
        }
    }
}

proof fn lemma_cut_both(left: Seq<InputFile>, place: int, right: Seq<InputFile>, other: int)
    requires
        paths_rise(right),
        0 <= place < left.len(),
        0 <= other < right.len(),
        cut(left, place, right, other),
        left[place].path@ == right[other].path@,
    ensures
        cut(left, place + 1, right, other + 1),
{
    assert forall|earlier: int, later: int|
        0 <= earlier < place + 1 && other + 1 <= later < right.len() implies text_relation(
        (#[trigger] left[earlier]).path@,
        (#[trigger] right[later]).path@,
    ) == Relation::Before by {
        if earlier == place {
            lemma_rise(right, other, later);
        }
    }
}

#[verifier::spinoff_prover]
#[verifier::rlimit(30)]
proof fn lemma_pairs(before: Seq<InputFile>, after: Seq<InputFile>, left: int, right: int)
    requires
        paths_rise(before),
        paths_rise(after),
        0 <= left <= before.len(),
        0 <= right <= after.len(),
        cut(before, left, after, right),
        cut(after, right, before, left),
    ensures
        forall|index: int|
            0 <= index < pairs_from(before, after, left, right).len() ==> pair_tells(
                before,
                after,
                #[trigger] pairs_from(before, after, left, right)[index],
            ),
        forall|place: int|
            left <= place < before.len() ==> holds_before(
                pairs_from(before, after, left, right),
                #[trigger] before[place],
            ),
        forall|place: int|
            right <= place < after.len() ==> holds_after(
                pairs_from(before, after, left, right),
                #[trigger] after[place],
            ),
    decreases before.len() - left + after.len() - right,
{
    text_order_is_total();
    let pairs = pairs_from(before, after, left, right);
    if left < before.len() || right < after.len() {
        let takes_left = left < before.len() && (right == after.len() || text_relation(
            before[left].path@,
            after[right].path@,
        ) == Relation::Before);
        let takes_right = !takes_left && right < after.len() && (left == before.len()
            || text_relation(before[left].path@, after[right].path@) == Relation::After);
        let next_left = if takes_right {
            left
        } else {
            left + 1
        };
        let next_right = if takes_left {
            right
        } else {
            right + 1
        };
        if left < before.len() && right < after.len() {
            order_pair(text_order(), before[left].path@, after[right].path@);
            order_pair(text_order(), after[right].path@, before[left].path@);
        }
        if takes_left {
            lemma_cut(before, left, after, right);
            lemma_alone(after, right, before[left].path@);
        } else if takes_right {
            lemma_cut(after, right, before, left);
            lemma_alone(before, left, after[right].path@);
        } else {
            lemma_cut_both(before, left, after, right);
            lemma_cut_both(after, right, before, left);
        }
        lemma_pairs(before, after, next_left, next_right);
        let rest = pairs_from(before, after, next_left, next_right);
        let first = pairs[0];
        assert(pairs =~= seq![first] + rest);
        assert(pair_tells(before, after, first));
        assert forall|index: int| 0 <= index < pairs.len() implies pair_tells(
            before,
            after,
            #[trigger] pairs[index],
        ) by {
            if index > 0 {
                assert(pairs[index] == rest[index - 1]);
            }
        }
        assert forall|place: int| left <= place < before.len() implies holds_before(
            pairs,
            #[trigger] before[place],
        ) by {
            if place >= next_left {
                assert(holds_before(rest, before[place]));
                let at = choose|at: int|
                    0 <= at < rest.len() && (#[trigger] rest[at]).before == Some(before[place]);
                assert(pairs[at + 1].before == Some(before[place]));
            } else {
                assert(pairs[0].before == Some(before[place]));
            }
        }
        assert forall|place: int| right <= place < after.len() implies holds_after(
            pairs,
            #[trigger] after[place],
        ) by {
            if place >= next_right {
                assert(holds_after(rest, after[place]));
                let at = choose|at: int|
                    0 <= at < rest.len() && (#[trigger] rest[at]).after == Some(after[place]);
                assert(pairs[at + 1].after == Some(after[place]));
            } else {
                assert(pairs[0].after == Some(after[place]));
            }
        }
    }
}

/// Whether a pair holds a file of the report before.
pub open spec fn holds_before(pairs: Seq<FilePairView>, file: InputFile) -> bool {
    exists|at: int| 0 <= at < pairs.len() && (#[trigger] pairs[at]).before == Some(file)
}

/// Whether a pair holds a file of the report after.
pub open spec fn holds_after(pairs: Seq<FilePairView>, file: InputFile) -> bool {
    exists|at: int| 0 <= at < pairs.len() && (#[trigger] pairs[at]).after == Some(file)
}

/// The files of two reports stand together by their paths: every file is in a pair,
/// and a file stands alone just where the other report has none of its path.
pub proof fn files_are_paired_by_path(before: InputReport, after: InputReport)
    requires
        paths_differ(before.files@),
        paths_differ(after.files@),
    ensures
        forall|index: int|
            0 <= index < file_pairs(before, after).len() ==> pair_tells(
                before.files@,
                after.files@,
                #[trigger] file_pairs(before, after)[index],
            ),
        forall|file: InputFile| #[trigger]
            before.files@.contains(file) ==> holds_before(file_pairs(before, after), file),
        forall|file: InputFile| #[trigger]
            after.files@.contains(file) ==> holds_after(file_pairs(before, after), file),
{
    let old_files = files_by_path(before.files@);
    let new_files = files_by_path(after.files@);
    let pairs = file_pairs(before, after);
    lemma_files_kept(before.files@);
    lemma_files_kept(after.files@);
    files_by_path_rise(before.files@);
    files_by_path_rise(after.files@);
    lemma_pairs(old_files, new_files, 0, 0);
    lemma_same_files(before.files@);
    lemma_same_files(after.files@);
    assert forall|index: int| 0 <= index < pairs.len() implies pair_tells(
        before.files@,
        after.files@,
        #[trigger] pairs[index],
    ) by {
        assert(pair_tells(old_files, new_files, pairs[index]));
    }
    assert forall|file: InputFile| #[trigger] before.files@.contains(file) implies holds_before(
        pairs,
        file,
    ) by {
        assert(old_files.contains(file));
        let place = choose|place: int| 0 <= place < old_files.len() && old_files[place] == file;
        assert(holds_before(pairs, old_files[place]));
    }
    assert forall|file: InputFile| #[trigger] after.files@.contains(file) implies holds_after(
        pairs,
        file,
    ) by {
        assert(new_files.contains(file));
        let place = choose|place: int| 0 <= place < new_files.len() && new_files[place] == file;
        assert(holds_after(pairs, new_files[place]));
    }
}

proof fn lemma_same_files(files: Seq<InputFile>)
    requires
        paths_differ(files),
    ensures
        forall|file: InputFile| #[trigger]
            files_by_path(files).contains(file) <==> files.contains(file),
        forall|path: Seq<char>| #[trigger]
            has_path(files_by_path(files), path) <==> has_path(files, path),
{
    let listed = files_by_path(files);
    lemma_files_kept(files);
    assert forall|file: InputFile| #[trigger] listed.contains(file) <==> files.contains(file) by {
        lemma_sorted_holds(files, files.len(), path_precedes(), file);
        assert(files.take(files.len() as int) =~= files);
    }
    assert forall|path: Seq<char>| #[trigger] has_path(listed, path) <==> has_path(files, path) by {
        if has_path(listed, path) {
            let at = choose|at: int| 0 <= at < listed.len() && (#[trigger] listed[at]).path@ == path;
            assert(listed.contains(listed[at]));
            assert(files.contains(listed[at]));
        }
        if has_path(files, path) {
            let at = choose|at: int| 0 <= at < files.len() && (#[trigger] files[at]).path@ == path;
            assert(files.contains(files[at]));
            assert(listed.contains(files[at]));
        }
    }
}

proof fn lemma_path_lists(pairs: Seq<FilePairView>, count: nat)
    requires
        count <= pairs.len(),
    ensures
        forall|path: Seq<char>| #[trigger]
            added_paths(pairs, count).contains(path) <==> exists|at: int|
                0 <= at < count && (#[trigger] pairs[at]).before is None && pairs[at].path() == path,
        forall|path: Seq<char>| #[trigger]
            removed_paths(pairs, count).contains(path) <==> exists|at: int|
                0 <= at < count && (#[trigger] pairs[at]).after is None && pairs[at].path() == path,
    decreases count,
{
    if count > 0 {
        lemma_path_lists(pairs, (count - 1) as nat);
        let last = pairs[count - 1];
        let added = added_paths(pairs, (count - 1) as nat);
        let removed = removed_paths(pairs, (count - 1) as nat);
        assert forall|path: Seq<char>| #[trigger]
            added_paths(pairs, count).contains(path) <==> exists|at: int|
            0 <= at < count && (#[trigger] pairs[at]).before is None && pairs[at].path() == path by {
            lemma_push_holds(added, last.path(), path);
        }
        assert forall|path: Seq<char>| #[trigger]
            removed_paths(pairs, count).contains(path) <==> exists|at: int|
            0 <= at < count && (#[trigger] pairs[at]).after is None && pairs[at].path() == path by {
            lemma_push_holds(removed, last.path(), path);
        }
    }
}

proof fn lemma_push_holds(items: Seq<Seq<char>>, last: Seq<char>, item: Seq<char>)
    ensures
        items.push(last).contains(item) <==> items.contains(item) || item == last,
{
    let all = items.push(last);
    if items.contains(item) {
        let at = choose|at: int| 0 <= at < items.len() && items[at] == item;
        assert(all[at] == item);
    }
    if item == last {
        assert(all[items.len() as int] == item);
    }
}

/// A path is listed as added where only the report after has a file for it, and as
/// removed where only the report before has one; the file set differs where a path is
/// listed as either.
pub proof fn paths_of_one_report_are_listed(before: InputReport, after: InputReport)
    requires
        paths_differ(before.files@),
        paths_differ(after.files@),
    ensures
        ({
            let pairs = file_pairs(before, after);
            &&& forall|path: Seq<char>| #[trigger]
                added_paths(pairs, pairs.len()).contains(path) <==> has_path(after.files@, path)
                    && !has_path(before.files@, path)
            &&& forall|path: Seq<char>| #[trigger]
                removed_paths(pairs, pairs.len()).contains(path) <==> has_path(before.files@, path)
                    && !has_path(after.files@, path)
            &&& file_set_differs(pairs) <==> exists|path: Seq<char>|
                has_path(before.files@, path) != has_path(after.files@, path)
        }),
{
    let pairs = file_pairs(before, after);
    files_are_paired_by_path(before, after);
    lemma_path_lists(pairs, pairs.len());
    let added = added_paths(pairs, pairs.len());
    let removed = removed_paths(pairs, pairs.len());
    assert forall|path: Seq<char>| #[trigger] added.contains(path) <==> has_path(
        after.files@,
        path,
    ) && !has_path(before.files@, path) by {
        if added.contains(path) {
            let at = choose|at: int|
                0 <= at < pairs.len() && (#[trigger] pairs[at]).before is None && pairs[at].path()
                    == path;
            assert(pair_tells(before.files@, after.files@, pairs[at]));
            let file = pairs[at].after->Some_0;
            let place = choose|place: int|
                0 <= place < after.files@.len() && after.files@[place] == file;
            assert(after.files@[place].path@ == path);
        }
        if has_path(after.files@, path) && !has_path(before.files@, path) {
            let place = choose|place: int|
                0 <= place < after.files@.len() && (#[trigger] after.files@[place]).path@ == path;
            let file = after.files@[place];
            assert(after.files@.contains(file));
            assert(holds_after(pairs, file));
            let at = choose|at: int|
                0 <= at < pairs.len() && (#[trigger] pairs[at]).after == Some(file);
            assert(pair_tells(before.files@, after.files@, pairs[at]));
            if pairs[at].before is Some {
                let other = pairs[at].before->Some_0;
                let there = choose|there: int|
                    0 <= there < before.files@.len() && before.files@[there] == other;
                assert(before.files@[there].path@ == path);
            }
        }
    }
    assert forall|path: Seq<char>| #[trigger] removed.contains(path) <==> has_path(
        before.files@,
        path,
    ) && !has_path(after.files@, path) by {
        if removed.contains(path) {
            let at = choose|at: int|
                0 <= at < pairs.len() && (#[trigger] pairs[at]).after is None && pairs[at].path()
                    == path;
            assert(pair_tells(before.files@, after.files@, pairs[at]));
            let file = pairs[at].before->Some_0;
            let place = choose|place: int|
                0 <= place < before.files@.len() && before.files@[place] == file;
            assert(before.files@[place].path@ == path);
        }
        if has_path(before.files@, path) && !has_path(after.files@, path) {
            let place = choose|place: int|
                0 <= place < before.files@.len() && (#[trigger] before.files@[place]).path@ == path;
            let file = before.files@[place];
            assert(before.files@.contains(file));
            assert(holds_before(pairs, file));
            let at = choose|at: int|
                0 <= at < pairs.len() && (#[trigger] pairs[at]).before == Some(file);
            assert(pair_tells(before.files@, after.files@, pairs[at]));
            if pairs[at].after is Some {
                let other = pairs[at].after->Some_0;
                let there = choose|there: int|
                    0 <= there < after.files@.len() && after.files@[there] == other;
                assert(after.files@[there].path@ == path);
            }
        }
    }
    if added.len() > 0 {
        assert(added.contains(added[0]));
        assert(has_path(before.files@, added[0]) != has_path(after.files@, added[0]));
    }
    if removed.len() > 0 {
        assert(removed.contains(removed[0]));
        assert(has_path(before.files@, removed[0]) != has_path(after.files@, removed[0]));
    }
    if exists|path: Seq<char>| has_path(before.files@, path) != has_path(after.files@, path) {
        let path = choose|path: Seq<char>|
            has_path(before.files@, path) != has_path(after.files@, path);
        assert(added.contains(path) || removed.contains(path));
    }
}

/// Whether a report can be compared at all: it is one of this tool, in the form and
/// with the evidence that are understood, it names its score model and its root, and
/// it is of every file that was found, each once.
pub open spec fn sound(report: InputReport) -> bool {
    &&& report.tool@ == "kompass"@
    &&& report.schema_version == 2
    &&& report.evidence_version@ == "evidence-v1"@
    &&& !blank(report.model@)
    &&& !blank(report.root@)
    &&& report.coverage.complete
    &&& report.coverage.failed_files == 0
    &&& report.errors@.len() == 0
    &&& report.coverage.discovered_files == report.files@.len()
    &&& report.coverage.analyzed_files == report.files@.len()
    &&& paths_differ(report.files@)
}

proof fn lemma_repeats(label: Seq<char>, files: Seq<InputFile>, count: nat)
    requires
        count <= files.len(),
    ensures
        repeated_path_issues(label, files, count).len() == 0 <==> paths_differ(
            files.take(count as int),
        ),
    decreases count,
{
    let some = files.take(count as int);
    if count > 0 {
        lemma_repeats(label, files, (count - 1) as nat);
        let fewer = files.take(count - 1);
        if paths_differ(some) {
            assert forall|left: int, right: int| 0 <= left < right < fewer.len() implies (
            #[trigger] fewer[left]).path@ != (#[trigger] fewer[right]).path@ by {
                assert(some[left].path@ != some[right].path@);
            }
            assert forall|earlier: int| 0 <= earlier < count - 1 implies (
            #[trigger] files[earlier]).path@ != files[count - 1].path@ by {
                assert(some[earlier].path@ != some[count - 1].path@);
            }
        }
        if repeated_path_issues(label, files, count).len() == 0 {
            assert(!path_repeats(files, count - 1));
            assert forall|left: int, right: int| 0 <= left < right < some.len() implies (
            #[trigger] some[left]).path@ != (#[trigger] some[right]).path@ by {
                if right < count - 1 {
                    assert(fewer[left].path@ != fewer[right].path@);
                } else {
                    assert(files[left].path@ != files[count - 1].path@);
                }
            }
        }
    }
}

proof fn lemma_sound(label: Seq<char>, report: InputReport)
    ensures
        identity_issues(label, report).len() + coverage_issues(label, report).len()
            + repeated_path_issues(label, report.files@, report.files@.len()).len() == 0
            <==> sound(report),
{
    lemma_repeats(label, report.files@, report.files@.len());
    assert(report.files@.take(report.files@.len() as int) =~= report.files@);
}

/// Two reports are found comparable just where each is sound, both were measured in
/// one way, and they are of one root and of the same files, unless a change of these
/// is allowed.
pub proof fn sound_reports_of_one_kind_are_comparable(
    before: InputReport,
    after: InputReport,
    options: CompareOptions,
)
    ensures
        comparison_issues(before, after, options).len() == 0 <==> {
            &&& sound(before)
            &&& sound(after)
            &&& before.model@ == after.model@
            &&& before.analysis_contract.version@ == after.analysis_contract.version@
            &&& before.analysis_contract.frontend@ == after.analysis_contract.frontend@
            &&& before.analysis_contract.discovery@ == after.analysis_contract.discovery@
            &&& before.root@ == after.root@ || options.allow_root_change
            &&& options.allow_file_changes || forall|path: Seq<char>|
                has_path(before.files@, path) == has_path(after.files@, path)
        },
{
    lemma_sound("before"@, before);
    lemma_sound("after"@, after);
    if sound(before) && sound(after) {
        paths_of_one_report_are_listed(before, after);
    }
    let agreement = agreement_issues(before, after, options).len();
    assert(agreement == 0 <==> {
        &&& before.model@ == after.model@
        &&& same_contract(before.analysis_contract, after.analysis_contract)
        &&& before.root@ == after.root@ || options.allow_root_change
    });
    let scope = scope_issues(file_pairs(before, after), options).len();
    assert(comparison_issues(before, after, options).len() == identity_issues(
        "before"@,
        before,
    ).len() + identity_issues("after"@, after).len() + agreement + coverage_issues(
        "before"@,
        before,
    ).len() + coverage_issues("after"@, after).len() + repeated_path_issues(
        "before"@,
        before.files@,
        before.files@.len(),
    ).len() + repeated_path_issues("after"@, after.files@, after.files@.len()).len() + scope);
}

/// One, where something holds.
pub open spec fn counted(holds: bool) -> nat {
    if holds {
        1
    } else {
        0
    }
}

/// A comparison warns once of each: another root, other files, another version,
/// another number of test files, and callables that could not be told apart.
pub proof fn differences_are_warned_of_once(before: InputReport, after: InputReport)
    requires
        paths_differ(before.files@),
        paths_differ(after.files@),
    ensures
        comparison_warnings(before, after).len() == {
            let old_entries = entries(before.files@);
            let new_entries = entries(after.files@);
            counted(before.root@ != after.root@) + counted(
                exists|path: Seq<char>|
                    has_path(before.files@, path) != has_path(after.files@, path),
            ) + counted(before.version@ != after.version@) + counted(
                before.coverage.test_files != after.coverage.test_files,
            ) + counted(
                ambiguous_upto(
                    old_entries,
                    new_entries,
                    partners(old_entries, new_entries),
                    old_entries.len(),
                ) > 0,
            )
        },
{
    paths_of_one_report_are_listed(before, after);
}

/// Whether a burden before is that of a file.
pub open spec fn was(delta: FileBurdenDelta, burden: InputBurden) -> bool {
    &&& delta.production.before == burden.production
    &&& delta.test.before == burden.test
    &&& delta.total.before == burden.total
}

/// Whether a burden after is that of a file.
pub open spec fn becomes(delta: FileBurdenDelta, burden: InputBurden) -> bool {
    &&& delta.production.after == burden.production
    &&& delta.test.after == burden.test
    &&& delta.total.after == burden.total
}

/// Every file of two reports is listed with its burden before and after, and with none
/// where the report has no file of its path.
pub proof fn file_burdens_are_those_of_the_files(
    comparison: Comparison,
    before_path: Seq<char>,
    after_path: Seq<char>,
    before: InputReport,
    after: InputReport,
)
    requires
        paths_differ(before.files@),
        paths_differ(after.files@),
        compares(comparison, before_path, after_path, before, after),
    ensures
        forall|file: InputFile| #[trigger]
            before.files@.contains(file) ==> exists|at: int|
                0 <= at < comparison.file_burdens@.len() && (
                #[trigger] comparison.file_burdens@[at]).path@ == file.path@ && was(
                    comparison.file_burdens@[at],
                    file.burden,
                ),
        forall|file: InputFile| #[trigger]
            after.files@.contains(file) ==> exists|at: int|
                0 <= at < comparison.file_burdens@.len() && (
                #[trigger] comparison.file_burdens@[at]).path@ == file.path@ && becomes(
                    comparison.file_burdens@[at],
                    file.burden,
                ),
        forall|at: int|
            0 <= at < comparison.file_burdens@.len() && !has_path(
                before.files@,
                (#[trigger] comparison.file_burdens@[at]).path@,
            ) ==> was(
                comparison.file_burdens@[at],
                InputBurden { production: 0, test: 0, total: 0 },
            ),
        forall|at: int|
            0 <= at < comparison.file_burdens@.len() && !has_path(
                after.files@,
                (#[trigger] comparison.file_burdens@[at]).path@,
            ) ==> becomes(
                comparison.file_burdens@[at],
                InputBurden { production: 0, test: 0, total: 0 },
            ),
{
    let pairs = file_pairs(before, after);
    let burdens = comparison.file_burdens@;
    files_are_paired_by_path(before, after);
    let views = file_burden_views(burdens);
    assert(views == file_burdens(pairs));
    assert(burdens.len() == views.len() && views.len() == pairs.len());
    assert forall|at: int| 0 <= at < burdens.len() implies (#[trigger] burdens[at]).path@
        == pairs[at].path() && burdens[at]@.burden == burden_delta(
        burden_or_none(pairs[at].before),
        burden_or_none(pairs[at].after),
    ) by {
        assert(views[at] == burdens[at]@);
        assert(views[at] == file_burdens(pairs)[at]);
    }
    assert forall|file: InputFile| #[trigger] before.files@.contains(file) implies exists|at: int|
        0 <= at < burdens.len() && (#[trigger] burdens[at]).path@ == file.path@ && was(
            burdens[at],
            file.burden,
        ) by {
        let at = choose|at: int| 0 <= at < pairs.len() && (#[trigger] pairs[at]).before == Some(file);
        assert(pair_tells(before.files@, after.files@, pairs[at]));
        assert(burdens[at].path@ == file.path@);
    }
    assert forall|file: InputFile| #[trigger] after.files@.contains(file) implies exists|at: int|
        0 <= at < burdens.len() && (#[trigger] burdens[at]).path@ == file.path@ && becomes(
            burdens[at],
            file.burden,
        ) by {
        assert(holds_after(pairs, file));
        let at = choose|at: int| 0 <= at < pairs.len() && (#[trigger] pairs[at]).after == Some(file);
        assert(pair_tells(before.files@, after.files@, pairs[at]));
        assert(burdens[at].path@ == file.path@);
    }
    assert forall|at: int|
        0 <= at < burdens.len() && !has_path(
            before.files@,
            (#[trigger] burdens[at]).path@,
        ) implies was(
        burdens[at],
        InputBurden { production: 0, test: 0, total: 0 },
    ) by {
        assert(pair_tells(before.files@, after.files@, pairs[at]));
        if pairs[at].before is Some {
            lemma_has(before.files@, pairs[at].before->Some_0);
        }
    }
    assert forall|at: int|
        0 <= at < burdens.len() && !has_path(
            after.files@,
            (#[trigger] burdens[at]).path@,
        ) implies becomes(
        burdens[at],
        InputBurden { production: 0, test: 0, total: 0 },
    ) by {
        assert(pair_tells(before.files@, after.files@, pairs[at]));
        if pairs[at].after is Some {
            lemma_has(after.files@, pairs[at].after->Some_0);
        }
    }
}

proof fn lemma_has(files: Seq<InputFile>, file: InputFile)
    requires
        files.contains(file),
    ensures
        has_path(files, file.path@),
{
    let at = choose|at: int| 0 <= at < files.len() && files[at] == file;
    assert(files[at].path@ == file.path@);
}

/// Whether a callable of a file and category, matched with one of the same file and
/// category, scores lower after.
pub open spec fn some_reduced(
    before: Seq<EntryView>,
    after: Seq<EntryView>,
    partners: Seq<Option<usize>>,
    path: Seq<char>,
    category: Seq<char>,
    count: nat,
) -> bool {
    exists|index: int|
        0 <= index < count && (#[trigger] partners[index]) is Some && before[index].path == path
            && before[index].category == category && {
            let partner = after[partners[index]->Some_0 as int];
            &&& partner.path == path
            &&& partner.category == category
            &&& partner.function.score.value < before[index].function.score.value
        }
}

proof fn lemma_reduced(
    before: Seq<EntryView>,
    after: Seq<EntryView>,
    partners: Seq<Option<usize>>,
    path: Seq<char>,
    category: Seq<char>,
    count: nat,
)
    ensures
        reductions_upto(before, after, partners, path, category, count).len() > 0 <==> some_reduced(
            before,
            after,
            partners,
            path,
            category,
            count,
        ),
    decreases count,
{
    if count > 0 {
        lemma_reduced(before, after, partners, path, category, (count - 1) as nat);
        if some_reduced(before, after, partners, path, category, (count - 1) as nat) {
            let index = choose|index: int|
                0 <= index < count - 1 && (#[trigger] partners[index]) is Some
                    && before[index].path == path && before[index].category == category && {
                    let partner = after[partners[index]->Some_0 as int];
                    &&& partner.path == path
                    &&& partner.category == category
                    &&& partner.function.score.value < before[index].function.score.value
                };
            assert(partners[index] is Some);
        }
        assert(partners[count - 1] is Some || partners[count - 1] is None);
    }
}

/// What a callable counts for that nothing before is matched with, where it is of a
/// file and category.
pub open spec fn added_worth(
    after: Seq<EntryView>,
    partners: Seq<Option<usize>>,
    path: Seq<char>,
    category: Seq<char>,
    worth: spec_fn(EntryView) -> nat,
) -> spec_fn(int) -> nat {
    |index: int|
        if !partners.contains(Some(index as usize)) && after[index].path == path
            && after[index].category == category {
            worth(after[index])
        } else {
            0nat
        }
}

proof fn lemma_added(
    after: Seq<EntryView>,
    partners: Seq<Option<usize>>,
    path: Seq<char>,
    category: Seq<char>,
    count: nat,
)
    requires
        count <= after.len(),
    ensures
        added_count_upto(after, partners, path, category, count) == total(
            Seq::new(
                count,
                added_worth(after, partners, path, category, |entry: EntryView| 1nat),
            ),
        ),
        added_burden_upto(after, partners, path, category, count) == total(
            Seq::new(
                count,
                added_worth(
                    after,
                    partners,
                    path,
                    category,
                    |entry: EntryView| entry.function.score.value as nat,
                ),
            ),
        ),
    decreases count,
{
    let one = added_worth(after, partners, path, category, |entry: EntryView| 1nat);
    let score = added_worth(
        after,
        partners,
        path,
        category,
        |entry: EntryView| entry.function.score.value as nat,
    );
    if count == 0 {
        assert(Seq::new(0, one) =~= Seq::<nat>::empty());
        assert(Seq::new(0, score) =~= Seq::<nat>::empty());
    } else {
        let fewer = (count - 1) as nat;
        lemma_added(after, partners, path, category, fewer);
        assert(Seq::new(count, one) =~= Seq::new(fewer, one).push(one(count - 1)));
        assert(Seq::new(count, score) =~= Seq::new(fewer, score).push(score(count - 1)));
        total_push(Seq::new(fewer, one), one(count - 1));
        total_push(Seq::new(fewer, score), score(count - 1));
    }
}

/// A file is hinted at, in a category, just where a callable of it was reduced, a
/// callable of it is new, and its burden of that category did not fall. The hint says
/// how many are new and what they add.
pub proof fn hints_need_a_reduction_and_an_addition(
    before: Seq<EntryView>,
    after: Seq<EntryView>,
    partners: Seq<Option<usize>>,
    old_file: InputFile,
    new_file: InputFile,
    category: Seq<char>,
)
    requires
        category == "production"@ || category == "test"@,
    ensures
        ({
            let path = old_file.path@;
            let hints = redistribution(before, after, partners, old_file, new_file, category);
            let added = total(
                Seq::new(
                    after.len(),
                    added_worth(after, partners, path, category, |entry: EntryView| 1nat),
                ),
            );
            let burden = total(
                Seq::new(
                    after.len(),
                    added_worth(
                        after,
                        partners,
                        path,
                        category,
                        |entry: EntryView| entry.function.score.value as nat,
                    ),
                ),
            );
            let production = category == "production"@;
            let old_burden = if production {
                old_file.burden.production
            } else {
                old_file.burden.test
            };
            let new_burden = if production {
                new_file.burden.production
            } else {
                new_file.burden.test
            };
            if some_reduced(before, after, partners, path, category, before.len()) && added > 0
                && new_burden >= old_burden {
                &&& hints.len() == 1
                &&& hints[0].path == path
                &&& hints[0].category == category
                &&& hints[0].added_count == added
                &&& burden <= usize::MAX ==> hints[0].added_burden == burden
                &&& hints[0].file_total.before == old_burden
                &&& hints[0].file_total.after == new_burden
            } else {
                hints.len() == 0
            }
        }),
{
    lemma_reduced(before, after, partners, old_file.path@, category, before.len());
    lemma_added(after, partners, old_file.path@, category, after.len());
}

}
