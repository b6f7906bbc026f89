//! What holds of every comparison.
use vstd::prelude::*;
use crate::deltas::{
    added_upto, change_precedes, change_views, changes_with, component_list, component_totals,
    fates_upto, ChangeStatus, FunctionChangeView,
};
use crate::diff::{
    added_paths, compares, comparison_warnings, file_burdens, file_set_differs, hint_views,
    metric_unchanged, redistributions_upto, reductions_upto, refusal, removed_paths, BurdenDelta,
    CallableStats, CompareOptions, Comparison,
};
use crate::entries::{
    entries, entries_upto, entry_precedes, file_entries, files_repeat_upto, repeat_upto,
    repeated_entry, repeats, same_key, EntryView,
};
use crate::matching::{
    ambiguous_upto, holders_upto, lemma_holder_listed, open_after, open_before, partners,
    partners_by, shared, IdentityEvidence,
};
use crate::order::{
    in_order, insertion_point, lemma_insertion_point, order_pair, order_triple, sorted,
    sorted_is_ordered, sorted_upto, text_order, text_order_is_total, text_relation, Relation,
};
use crate::report_input::{
    distinct_upto, file_pairs, files_by_path, pairs_from, path_precedes, FilePairView, InputFile,
    InputReport,
};
use crate::text::texts;

verus! {

/// Whether each file's path stands before those of all later files.
pub open spec fn paths_rise(files: Seq<InputFile>) -> bool {
    forall|left: int, right: int|
        0 <= left < right < files.len() ==> text_relation(
            (#[trigger] files[left]).path@,
            (#[trigger] files[right]).path@,
        ) == Relation::Before
}

proof fn lemma_distinct_rise(listed: Seq<InputFile>, count: nat)
    requires
        count <= listed.len(),
        in_order(listed, path_precedes()),
    ensures
        paths_rise(distinct_upto(listed, count)),
        count > 0 ==> distinct_upto(listed, count).len() > 0 && distinct_upto(
            listed,
            count,
        ).last().path@ == listed[count - 1].path@,
    decreases count,
{
    if count > 0 {
        lemma_distinct_rise(listed, (count - 1) as nat);
        let earlier = distinct_upto(listed, (count - 1) as nat);
        let result = distinct_upto(listed, count);
        let file = listed[count - 1];
        let order = text_order();
        text_order_is_total();
        if earlier.len() > 0 {
            assert(path_precedes()(listed[count - 2], listed[count - 1]));
            order_pair(order, earlier.last().path@, file.path@);
        }
        assert forall|left: int, right: int| 0 <= left < right < result.len() implies text_relation(
            (#[trigger] result[left]).path@,
            (#[trigger] result[right]).path@,
        ) == Relation::Before by {
            if right == result.len() - 1 {
                let last = earlier.len() - 1;
                if left < last {
                    assert(text_relation(earlier[left].path@, earlier[last].path@)
                        == Relation::Before);
                    order_triple(order, earlier[left].path@, earlier[last].path@, file.path@);
                }
            } else {
                assert(text_relation(earlier[left].path@, earlier[right].path@)
                    == Relation::Before);
            }
        }
    }
}

/// The files of a report by path stand in strict order, so each path once.
pub proof fn files_by_path_rise(files: Seq<InputFile>)
    ensures
        paths_rise(files_by_path(files)),
{
    let order = path_precedes();
    text_order_is_total();
    assert forall|left: InputFile, right: InputFile| #[trigger]
        order(left, right) || order(right, left) by {
        order_pair(text_order(), left.path@, right.path@);
    }
    assert forall|left: InputFile, middle: InputFile, right: InputFile| #[trigger]
        order(left, middle) && #[trigger] order(middle, right) implies order(left, right) by {
        order_triple(text_order(), left.path@, middle.path@, right.path@);
        order_pair(text_order(), left.path@, middle.path@);
        order_pair(text_order(), middle.path@, right.path@);
    }
    sorted_is_ordered(files, order);
    lemma_distinct_rise(sorted(files, order), sorted(files, order).len());
}

/// Whether no two entries have one key.
pub open spec fn keys_distinct(listed: Seq<EntryView>) -> bool {
    forall|left: int, right: int|
        0 <= left < right < listed.len() ==> !same_key(
            #[trigger] listed[left],
            #[trigger] listed[right],
        )
}

proof fn lemma_no_repeat(listed: Seq<EntryView>, count: nat)
    requires
        count <= listed.len(),
        repeat_upto(listed, count) is None,
    ensures
        keys_distinct(listed.take(count as int)),
    decreases count,
{
    if count > 0 {
        lemma_no_repeat(listed, (count - 1) as nat);
        let shorter = listed.take(count - 1);
        let longer = listed.take(count as int);
        assert forall|left: int, right: int| 0 <= left < right < longer.len() implies !same_key(
            #[trigger] longer[left],
            #[trigger] longer[right],
        ) by {
            if right < count - 1 {
                assert(!same_key(shorter[left], shorter[right]));
            } else {
                assert(!repeats(listed, count - 1));
                assert(!same_key(listed[left], listed[count - 1]));
            }
        }
    }
}

proof fn lemma_entries_distinct(files: Seq<InputFile>, count: nat)
    requires
        count <= files.len(),
        paths_rise(files),
        files_repeat_upto(files, count) is None,
    ensures
        keys_distinct(entries_upto(files, count)),
        forall|index: int|
            0 <= index < entries_upto(files, count).len() ==> exists|file: int|
                0 <= file < count && (#[trigger] entries_upto(files, count)[index]).path
                    == files[file].path@,
    decreases count,
{
    if count > 0 {
        lemma_entries_distinct(files, (count - 1) as nat);
        let earlier = entries_upto(files, (count - 1) as nat);
        let own = file_entries(files[count - 1]);
        let listed = entries_upto(files, count);
        lemma_no_repeat(own, own.len());
        assert(own.take(own.len() as int) =~= own);
        assert forall|index: int| 0 <= index < listed.len() implies exists|file: int|
            0 <= file < count && (#[trigger] listed[index]).path == files[file].path@ by {
            if index < earlier.len() {
                let file = choose|file: int|
                    0 <= file < count - 1 && earlier[index].path == files[file].path@;
                assert(listed[index].path == files[file].path@);
            } else {
                assert(listed[index] == own[index - earlier.len()]);
                assert(listed[index].path == files[count - 1].path@);
            }
        }
        assert forall|left: int, right: int| 0 <= left < right < listed.len() implies !same_key(
            #[trigger] listed[left],
            #[trigger] listed[right],
        ) by {
            if right < earlier.len() {
                assert(!same_key(earlier[left], earlier[right]));
            } else if left >= earlier.len() {
                assert(!same_key(own[left - earlier.len()], own[right - earlier.len()]));
            } else {
                assert(listed[right] == own[right - earlier.len()]);
                let file = choose|file: int|
                    0 <= file < count - 1 && earlier[left].path == files[file].path@;
                assert(listed[left] == earlier[left]);
                assert(text_relation(files[file].path@, files[count - 1].path@)
                    == Relation::Before);
                text_order_is_total();
                order_pair(text_order(), files[file].path@, files[count - 1].path@);
            }
        }
    }
}

proof fn lemma_sorted_distinct(listed: Seq<EntryView>, count: nat)
    requires
        count <= listed.len(),
        keys_distinct(listed),
    ensures
        keys_distinct(sorted_upto(listed, count, entry_precedes())),
        forall|index: int|
            0 <= index < sorted_upto(listed, count, entry_precedes()).len() ==> exists|place: int|
                0 <= place < count && listed[place] == #[trigger] sorted_upto(
                    listed,
                    count,
                    entry_precedes(),
                )[index],
    decreases count,
{
    if count > 0 {
        lemma_sorted_distinct(listed, (count - 1) as nat);
        let rest = sorted_upto(listed, (count - 1) as nat, entry_precedes());
        let item = listed[count - 1];
        let place = insertion_point(rest, item, entry_precedes());
        lemma_insertion_point(rest, item, entry_precedes());
        let result = rest.insert(place, item);
        assert forall|index: int| 0 <= index < result.len() implies exists|from: int|
            0 <= from < count && listed[from] == #[trigger] result[index] by {
            if index == place {
                assert(listed[count - 1] == result[index]);
            } else {
                let old_index = if index < place {
                    index
                } else {
                    index - 1
                };
                let from = choose|from: int| 0 <= from < count - 1 && listed[from] == rest[old_index];
                assert(listed[from] == result[index]);
            }
        }
        assert forall|left: int, right: int| 0 <= left < right < result.len() implies !same_key(
            #[trigger] result[left],
            #[trigger] result[right],
        ) by {
            let before = if left < place {
                left
            } else {
                left - 1
            };
            let after = if right < place {
                right
            } else {
                right - 1
            };
            if left == place {
                let from = choose|from: int| 0 <= from < count - 1 && listed[from] == rest[after];
                assert(!same_key(listed[from], listed[count - 1]));
            } else if right == place {
                let from = choose|from: int| 0 <= from < count - 1 && listed[from] == rest[before];
                assert(!same_key(listed[from], listed[count - 1]));
            } else {
                assert(!same_key(rest[before], rest[after]));
            }
        }
    }
}

/// The callables of a report that lists none twice have different keys.
pub proof fn entries_have_distinct_keys(files: Seq<InputFile>)
    requires
        repeated_entry(files) is None,
    ensures
        keys_distinct(entries(files)),
{
    let by_path = files_by_path(files);
    files_by_path_rise(files);
    lemma_entries_distinct(by_path, by_path.len());
    let listed = entries_upto(by_path, by_path.len());
    lemma_sorted_distinct(listed, listed.len());
}

/// Whether every entry is matched with itself or with none.
spec fn self_matched(matched: Seq<Option<usize>>) -> bool {
    forall|index: int|
        0 <= index < matched.len() ==> (#[trigger] matched[index] is None || matched[index]
            == Some(index as usize))
}

proof fn lemma_self_open(matched: Seq<Option<usize>>)
    requires
        self_matched(matched),
        matched.len() <= usize::MAX,
    ensures
        open_before(matched) == open_after(matched, matched.len()),
{
    assert forall|index: int| 0 <= index < matched.len() implies open_before(matched)[index]
        == open_after(matched, matched.len())[index] by {
        if matched[index] is Some {
            assert(matched.contains(Some(index as usize)));
        } else if matched.contains(Some(index as usize)) {
            let place = choose|place: int|
                0 <= place < matched.len() && matched[place] == Some(index as usize);
            assert(matched[place] is None || matched[place] == Some(place as usize));
        }
    }
    assert(open_before(matched) =~= open_after(matched, matched.len()));
}

proof fn lemma_self_match(
    listed: Seq<EntryView>,
    matched: Seq<Option<usize>>,
    kind: IdentityEvidence,
)
    requires
        listed.len() == matched.len(),
        listed.len() <= usize::MAX,
        self_matched(matched),
    ensures
        self_matched(partners_by(listed, listed, matched, kind)),
        partners_by(listed, listed, matched, kind).len() == listed.len(),
        kind == IdentityEvidence::QualifiedName && keys_distinct(listed) ==> forall|index: int|
            0 <= index < listed.len() ==> #[trigger] partners_by(listed, listed, matched, kind)[index]
                == Some(index as usize),
{
    let next = partners_by(listed, listed, matched, kind);
    let open = open_before(matched);
    lemma_self_open(matched);
    assert forall|index: int| 0 <= index < next.len() implies (#[trigger] next[index] is None
        || next[index] == Some(index as usize)) && (kind == IdentityEvidence::QualifiedName
        && keys_distinct(listed) ==> next[index] == Some(index as usize)) by {
        let holders = holders_upto(listed, open, kind, listed[index], listed.len());
        lemma_holder_listed(listed, open, kind, listed[index], listed.len());
        if matched[index] is None {
            if holders.len() == 1 {
                assert(shared(kind, listed[holders[0] as int], listed[index]));
                assert(shared(kind, listed[index], listed[index]));
                assert(holders.contains(index as usize));
            }
            if kind == IdentityEvidence::QualifiedName && keys_distinct(listed) {
                assert(shared(kind, listed[index], listed[index]));
                assert(holders.contains(index as usize));
                let place = choose|place: int|
                    0 <= place < holders.len() && holders[place] == index as usize;
                lemma_sole_key(listed, open, index, listed.len());
            }
        }
    }
}

proof fn lemma_sole_key(listed: Seq<EntryView>, open: Seq<bool>, index: int, count: nat)
    requires
        keys_distinct(listed),
        0 <= index < listed.len(),
        count <= listed.len() <= usize::MAX,
        open[index],
    ensures
        holders_upto(
            listed,
            open,
            IdentityEvidence::QualifiedName,
            listed[index],
            count,
        ).len() == if index < count {
            1nat
        } else {
            0nat
        },
    decreases count,
{
    if count > 0 {
        lemma_sole_key(listed, open, index, (count - 1) as nat);
        if count - 1 < index {
            assert(!same_key(listed[count - 1], listed[index]));
        } else if count - 1 > index {
            assert(!same_key(listed[index], listed[count - 1]));
        }
    }
}

proof fn lemma_self_partners(listed: Seq<EntryView>)
    requires
        keys_distinct(listed),
        listed.len() <= usize::MAX,
    ensures
        partners(listed, listed).len() == listed.len(),
        forall|index: int|
            0 <= index < listed.len() ==> #[trigger] partners(listed, listed)[index] == Some(
                index as usize,
            ),
{
    let none: Seq<Option<usize>> = Seq::new(listed.len(), |index: int| None);
    let first = partners_by(listed, listed, none, IdentityEvidence::Snapshot);
    let second = partners_by(listed, listed, first, IdentityEvidence::DeclarationAndBody);
    let third = partners_by(listed, listed, second, IdentityEvidence::Body);
    let fourth = partners_by(listed, listed, third, IdentityEvidence::Declaration);
    lemma_self_match(listed, none, IdentityEvidence::Snapshot);
    lemma_self_match(listed, first, IdentityEvidence::DeclarationAndBody);
    lemma_self_match(listed, second, IdentityEvidence::Body);
    lemma_self_match(listed, third, IdentityEvidence::Declaration);
    lemma_self_match(listed, fourth, IdentityEvidence::QualifiedName);
}

proof fn lemma_no_fates(
    listed: Seq<EntryView>,
    matched: Seq<Option<usize>>,
    status: ChangeStatus,
    count: nat,
)
    requires
        count <= listed.len() <= usize::MAX,
        matched.len() == listed.len(),
        forall|index: int|
            0 <= index < listed.len() ==> #[trigger] matched[index] == Some(index as usize),
    ensures
        fates_upto(listed, listed, matched, status, count).len() == 0,
        added_upto(listed, matched, count).len() == 0,
        ambiguous_upto(listed, listed, matched, count) == 0,
    decreases count,
{
    if count > 0 {
        lemma_no_fates(listed, matched, status, (count - 1) as nat);
        assert(matched[count - 1] == Some((count - 1) as usize));
        assert(matched.contains(Some((count - 1) as usize)));
    }
}

proof fn lemma_same_pairs(files: Seq<InputFile>, start: int)
    requires
        0 <= start <= files.len(),
    ensures
        forall|index: int|
            0 <= index < pairs_from(files, files, start, start).len() ==> {
                let pair = #[trigger] pairs_from(files, files, start, start)[index];
                pair.before is Some && pair.before == pair.after
            },
    decreases files.len() - start,
{
    text_order_is_total();
    if start < files.len() {
        lemma_same_pairs(files, start + 1);
        order_pair(text_order(), files[start].path@, files[start].path@);
    }
}

proof fn lemma_no_path_changes(pairs: Seq<FilePairView>, count: nat)
    requires
        count <= pairs.len(),
        forall|index: int|
            0 <= index < pairs.len() ==> (#[trigger] pairs[index]).before is Some
                && pairs[index].before == pairs[index].after,
    ensures
        added_paths(pairs, count).len() == 0,
        removed_paths(pairs, count).len() == 0,
    decreases count,
{
    if count > 0 {
        lemma_no_path_changes(pairs, (count - 1) as nat);
    }
}

/// A report compared with itself, where that is not refused, shows no change:
/// no callable and no file differs, every metric and component stays, and
/// there is nothing to warn of.
pub proof fn unchanged_reports_show_no_change(report: InputReport, options: CompareOptions)
    requires
        refusal(report, report, options).len() == 0,
        entries(report.files@).len() <= usize::MAX,
    ensures
        ({
            let listed = entries(report.files@);
            let matched = partners(listed, listed);
            let pairs = file_pairs(report, report);
            &&& forall|status: ChangeStatus| #[trigger]
                changes_with(listed, listed, matched, status).len() == 0
            &&& !file_set_differs(pairs)
            &&& forall|index: int|
                0 <= index < file_burdens(pairs).len() ==> {
                    let burden = (#[trigger] file_burdens(pairs)[index]).burden;
                    metric_unchanged(burden.production) && metric_unchanged(burden.test)
                        && metric_unchanged(burden.total)
                }
            &&& forall|index: int|
                0 <= index < 8 ==> (#[trigger] component_list(
                    component_totals(listed, None),
                    component_totals(listed, None),
                )[index]).delta == 0
            &&& comparison_warnings(report, report).len() == 0
        }),
{
    let listed = entries(report.files@);
    let matched = partners(listed, listed);
    let pairs = file_pairs(report, report);
    entries_have_distinct_keys(report.files@);
    lemma_self_partners(listed);
    assert forall|status: ChangeStatus| #[trigger]
        changes_with(listed, listed, matched, status).len() == 0 by {
        lemma_no_fates(listed, matched, status, listed.len());
        let none = Seq::<FunctionChangeView>::empty();
        assert(added_upto(listed, matched, listed.len()) =~= none);
        assert(fates_upto(listed, listed, matched, status, listed.len()) =~= none);
        assert(sorted(none, change_precedes()).len() == 0);
    }
    lemma_no_fates(listed, matched, ChangeStatus::Changed, listed.len());
    lemma_same_pairs(files_by_path(report.files@), 0);
    lemma_no_path_changes(pairs, pairs.len());
}

proof fn lemma_no_hints(
    listed: Seq<EntryView>,
    matched: Seq<Option<usize>>,
    path: Seq<char>,
    category: Seq<char>,
    count: nat,
)
    requires
        count <= listed.len() <= usize::MAX,
        matched.len() == listed.len(),
        forall|index: int|
            0 <= index < listed.len() ==> #[trigger] matched[index] == Some(index as usize),
    ensures
        reductions_upto(listed, listed, matched, path, category, count).len() == 0,
    decreases count,
{
    if count > 0 {
        lemma_no_hints(listed, matched, path, category, (count - 1) as nat);
        assert(matched[count - 1] == Some((count - 1) as usize));
    }
}

proof fn lemma_no_redistributions(
    listed: Seq<EntryView>,
    matched: Seq<Option<usize>>,
    pairs: Seq<FilePairView>,
    count: nat,
)
    requires
        count <= pairs.len(),
        listed.len() <= usize::MAX,
        matched.len() == listed.len(),
        forall|index: int|
            0 <= index < listed.len() ==> #[trigger] matched[index] == Some(index as usize),
    ensures
        redistributions_upto(listed, listed, matched, pairs, count).len() == 0,
    decreases count,
{
    if count > 0 {
        lemma_no_redistributions(listed, matched, pairs, (count - 1) as nat);
        if let Some(file) = pairs[count - 1].before {
            lemma_no_hints(listed, matched, file.path@, "production"@, listed.len());
            lemma_no_hints(listed, matched, file.path@, "test"@, listed.len());
        }
    }
}

/// Whether no metric of a burden changed.
pub open spec fn burden_unchanged(burden: BurdenDelta) -> bool {
    metric_unchanged(burden.production) && metric_unchanged(burden.test) && metric_unchanged(
        burden.total,
    )
}

/// Whether no metric of callables changed.
pub open spec fn stats_unchanged(stats: CallableStats) -> bool {
    metric_unchanged(stats.count) && metric_unchanged(stats.p95_score) && metric_unchanged(
        stats.highest_score,
    )
}

/// The comparison of a report with itself: every difference is zero and every
/// list of changes, hints and warnings is empty.
pub proof fn comparing_a_report_with_itself(
    comparison: Comparison,
    before_path: Seq<char>,
    after_path: Seq<char>,
    report: InputReport,
    options: CompareOptions,
)
    requires
        refusal(report, report, options).len() == 0,
        compares(comparison, before_path, after_path, report, report),
        entries(report.files@).len() <= usize::MAX,
    ensures
        burden_unchanged(comparison.burden),
        stats_unchanged(comparison.callables.production),
        stats_unchanged(comparison.callables.test),
        metric_unchanged(comparison.macro_opacity.invocations),
        metric_unchanged(comparison.macro_opacity.source_tokens),
        metric_unchanged(comparison.macro_opacity.definitions),
        metric_unchanged(comparison.macro_opacity.definition_tokens),
        comparison.functions.changed@.len() == 0,
        comparison.functions.moved@.len() == 0,
        comparison.functions.added@.len() == 0,
        comparison.functions.removed@.len() == 0,
        comparison.file_changes.added@.len() == 0,
        comparison.file_changes.removed@.len() == 0,
        comparison.possible_redistributions@.len() == 0,
        comparison.warnings@.len() == 0,
{
    let listed = entries(report.files@);
    let matched = partners(listed, listed);
    let pairs = file_pairs(report, report);
    unchanged_reports_show_no_change(report, options);
    entries_have_distinct_keys(report.files@);
    lemma_self_partners(listed);
    lemma_no_redistributions(listed, matched, pairs, pairs.len());
    assert(changes_with(listed, listed, matched, ChangeStatus::Changed).len() == 0);
    assert(changes_with(listed, listed, matched, ChangeStatus::Moved).len() == 0);
    assert(changes_with(listed, listed, matched, ChangeStatus::Added).len() == 0);
    assert(changes_with(listed, listed, matched, ChangeStatus::Removed).len() == 0);
    assert(change_views(comparison.functions.changed@).len() == 0);
    assert(change_views(comparison.functions.moved@).len() == 0);
    assert(change_views(comparison.functions.added@).len() == 0);
    assert(change_views(comparison.functions.removed@).len() == 0);
    assert(texts(comparison.file_changes.added@).len() == 0);
    assert(texts(comparison.file_changes.removed@).len() == 0);
    assert(texts(comparison.warnings@).len() == 0);
    assert(hint_views(comparison.possible_redistributions@).len() == 0);
}

}
