//! What holds of two comparisons of the same reports, each way round.
use vstd::prelude::*;
use crate::deltas::{
    added_upto, change_of, change_precedes, change_views, changes_with, component_differences,
    component_list, component_precedes, component_totals, component_views, fate, fates_upto,
    ChangeStatus, ComponentDeltaView, FunctionChangeView, MetricDelta,
};
use crate::diff::{
    added_paths, compares, file_burden_views, file_burdens, language_difference,
    language_differences, language_views, removed_paths, BurdenDelta, CallableStats, Comparison,
    FileBurdenView, LanguageDeltaView,
};
use crate::entries::{entries, EntryView};
use crate::matching::{
    holders_upto, lemma_holder_listed, matching_is_one_to_one, open_after, open_before, partners,
    partners_by, partners_valid, shared, IdentityEvidence,
};
use crate::model::Language;
use crate::order::{
    lemma_sorted_holds, order_pair, sorted_mapped, text_order, text_order_is_total, Relation,
};
use crate::report_input::{
    file_pairs, files_by_path, pairs_from, FilePairView, InputFile, InputReport,
};
use crate::text::texts;

verus! {

/// Whether two matchings are one matching seen from its two sides.
pub open spec fn inverse(forth: Seq<Option<usize>>, back: Seq<Option<usize>>) -> bool {
    &&& partners_valid(forth, back.len())
    &&& partners_valid(back, forth.len())
    &&& forall|left: int, right: int|
        0 <= left < forth.len() && 0 <= right < back.len() ==> ((#[trigger] forth[left] == Some(
            right as usize,
        )) <==> (#[trigger] back[right] == Some(left as usize)))
}

proof fn lemma_inverse_open(forth: Seq<Option<usize>>, back: Seq<Option<usize>>)
    requires
        inverse(forth, back),
        forth.len() <= usize::MAX,
        back.len() <= usize::MAX,
    ensures
        open_before(back) == open_after(forth, back.len()),
{
    assert forall|index: int| 0 <= index < back.len() implies open_before(back)[index]
        == open_after(forth, back.len())[index] by {
        if let Some(partner) = back[index] {
            assert(partner < forth.len());
            assert(forth[partner as int] == Some(index as usize));
            assert(forth.contains(Some(index as usize)));
        } else if forth.contains(Some(index as usize)) {
            let place = choose|place: int|
                0 <= place < forth.len() && forth[place] == Some(index as usize);
            assert(back[index] == Some(place as usize));
        }
    }
    assert(open_before(back) =~= open_after(forth, back.len()));
}

proof fn lemma_same_holders(
    listed: Seq<EntryView>,
    open: Seq<bool>,
    kind: IdentityEvidence,
    left: EntryView,
    right: EntryView,
    count: nat,
)
    requires
        shared(kind, left, right),
    ensures
        holders_upto(listed, open, kind, left, count) == holders_upto(
            listed,
            open,
            kind,
            right,
            count,
        ),
    decreases count,
{
    if count > 0 {
        lemma_same_holders(listed, open, kind, left, right, (count - 1) as nat);
    }
}

proof fn lemma_half_inverse(
    before: Seq<EntryView>,
    after: Seq<EntryView>,
    forth: Seq<Option<usize>>,
    back: Seq<Option<usize>>,
    kind: IdentityEvidence,
    left: int,
    right: int,
)
    requires
        inverse(forth, back),
        forth.len() == before.len() <= usize::MAX,
        back.len() == after.len() <= usize::MAX,
        0 <= left < before.len(),
        0 <= right < after.len(),
        partners_by(before, after, forth, kind)[left] == Some(right as usize),
    ensures
        partners_by(after, before, back, kind)[right] == Some(left as usize),
{
    if forth[left] is None {
        let before_open = open_before(forth);
        let after_open = open_after(forth, after.len());
        lemma_inverse_open(forth, back);
        lemma_inverse_open(back, forth);
        lemma_holder_listed(after, after_open, kind, before[left], after.len());
        let found = holders_upto(after, after_open, kind, before[left], after.len());
        assert(found[0] == right as usize);
        assert(shared(kind, after[right], before[left]));
        assert(after_open[right]);
        assert(open_before(back)[right]);
        lemma_same_holders(
            after,
            after_open,
            kind,
            after[right],
            before[left],
            after.len(),
        );
        lemma_same_holders(
            before,
            before_open,
            kind,
            after[right],
            before[left],
            before.len(),
        );
        lemma_holder_listed(before, before_open, kind, before[left], before.len());
        let own = holders_upto(before, before_open, kind, before[left], before.len());
        assert(shared(kind, before[left], before[left]));
        assert(before_open[left]);
        assert(own.contains(left as usize));
        assert(own[0] == left as usize);
    } else {
        assert(back[right] == Some(left as usize));
    }
}

proof fn lemma_stage_valid(
    before: Seq<EntryView>,
    after: Seq<EntryView>,
    forth: Seq<Option<usize>>,
    kind: IdentityEvidence,
)
    requires
        forth.len() == before.len(),
        after.len() <= usize::MAX,
        partners_valid(forth, after.len()),
    ensures
        partners_valid(partners_by(before, after, forth, kind), after.len()),
{
    let next = partners_by(before, after, forth, kind);
    let after_open = open_after(forth, after.len());
    assert forall|index: int| 0 <= index < next.len() implies match #[trigger] next[index] {
        Some(partner) => partner < after.len(),
        None => true,
    } by {
        lemma_holder_listed(after, after_open, kind, before[index], after.len());
    }
}

proof fn lemma_stage_inverse(
    before: Seq<EntryView>,
    after: Seq<EntryView>,
    forth: Seq<Option<usize>>,
    back: Seq<Option<usize>>,
    kind: IdentityEvidence,
)
    requires
        inverse(forth, back),
        forth.len() == before.len() <= usize::MAX,
        back.len() == after.len() <= usize::MAX,
    ensures
        inverse(
            partners_by(before, after, forth, kind),
            partners_by(after, before, back, kind),
        ),
{
    let next = partners_by(before, after, forth, kind);
    let next_back = partners_by(after, before, back, kind);
    lemma_stage_valid(before, after, forth, kind);
    lemma_stage_valid(after, before, back, kind);
    assert forall|left: int, right: int|
        0 <= left < next.len() && 0 <= right < next_back.len() implies ((#[trigger] next[left]
        == Some(right as usize)) <==> (#[trigger] next_back[right] == Some(left as usize))) by {
        if next[left] == Some(right as usize) {
            lemma_half_inverse(before, after, forth, back, kind, left, right);
        }
        if next_back[right] == Some(left as usize) {
            lemma_half_inverse(after, before, back, forth, kind, right, left);
        }
    }
}

/// Matching two reports the other way round gives the same pairs.
pub proof fn matching_is_symmetric(before: Seq<EntryView>, after: Seq<EntryView>)
    requires
        before.len() <= usize::MAX,
        after.len() <= usize::MAX,
    ensures
        inverse(partners(before, after), partners(after, before)),
{
    let none: Seq<Option<usize>> = Seq::new(before.len(), |index: int| None);
    let none_back: Seq<Option<usize>> = Seq::new(after.len(), |index: int| None);
    let first = partners_by(before, after, none, IdentityEvidence::Snapshot);
    let first_back = partners_by(after, before, none_back, IdentityEvidence::Snapshot);
    lemma_stage_inverse(before, after, none, none_back, IdentityEvidence::Snapshot);
    let kind = IdentityEvidence::DeclarationAndBody;
    let second = partners_by(before, after, first, kind);
    let second_back = partners_by(after, before, first_back, kind);
    lemma_stage_inverse(before, after, first, first_back, kind);
    let third = partners_by(before, after, second, IdentityEvidence::Body);
    let third_back = partners_by(after, before, second_back, IdentityEvidence::Body);
    lemma_stage_inverse(before, after, second, second_back, IdentityEvidence::Body);
    let fourth = partners_by(before, after, third, IdentityEvidence::Declaration);
    let fourth_back = partners_by(after, before, third_back, IdentityEvidence::Declaration);
    lemma_stage_inverse(before, after, third, third_back, IdentityEvidence::Declaration);
    lemma_stage_inverse(before, after, fourth, fourth_back, IdentityEvidence::QualifiedName);
}

/// A difference turned round; the least one has none in its type.
pub open spec fn turned(delta: i64) -> i64 {
    if delta == i64::MIN {
        delta
    } else {
        (-delta) as i64
    }
}

/// A change seen from the other side.
pub open spec fn turned_change(change: FunctionChangeView, status: ChangeStatus) -> FunctionChangeView {
    FunctionChangeView {
        status,
        before_score: change.after_score,
        after_score: change.before_score,
        delta: turned(change.delta),
        ..change
    }
}

/// Changes seen from the other side, under another status.
pub open spec fn turned_changes(changes: Seq<FunctionChangeView>, status: ChangeStatus) -> Seq<
    FunctionChangeView,
> {
    changes.map_values(|change: FunctionChangeView| turned_change(change, status))
}

/// Whether the scores of callables are in the range of a difference.
pub open spec fn scores_countable(listed: Seq<EntryView>) -> bool {
    forall|index: int|
        0 <= index < listed.len() ==> (#[trigger] listed[index]).function.score.value <= i64::MAX
}

proof fn lemma_gone_and_come(
    before: Seq<EntryView>,
    after: Seq<EntryView>,
    forth: Seq<Option<usize>>,
    back: Seq<Option<usize>>,
    count: nat,
)
    requires
        inverse(forth, back),
        forth.len() == before.len() <= usize::MAX,
        back.len() == after.len() <= usize::MAX,
        count <= before.len(),
        scores_countable(before),
    ensures
        added_upto(before, back, count) == turned_changes(
            fates_upto(before, after, forth, ChangeStatus::Removed, count),
            ChangeStatus::Added,
        ),
        fates_upto(before, after, forth, ChangeStatus::Removed, count) == turned_changes(
            added_upto(before, back, count),
            ChangeStatus::Removed,
        ),
    decreases count,
{
    let added = added_upto(before, back, count);
    let gone = fates_upto(before, after, forth, ChangeStatus::Removed, count);
    if count > 0 {
        lemma_gone_and_come(before, after, forth, back, (count - 1) as nat);
        lemma_inverse_open(back, forth);
        let entry = before[count - 1];
        assert(open_before(forth)[count - 1] == (forth[count - 1] is None));
        assert(entry.function.score.value <= i64::MAX);
        let value = entry.function.score.value;
        let come = change_of(entry, ChangeStatus::Added, None, Some(value));
        let left = change_of(entry, ChangeStatus::Removed, Some(value), None);
        assert(turned_change(come, ChangeStatus::Removed) == left);
        assert(turned_change(left, ChangeStatus::Added) == come);
    }
    assert(added =~= turned_changes(gone, ChangeStatus::Added));
    assert(gone =~= turned_changes(added, ChangeStatus::Removed));
}

proof fn lemma_turned_order(status: ChangeStatus, changes: Seq<FunctionChangeView>)
    ensures
        turned_changes(crate::order::sorted(changes, change_precedes()), status)
            == crate::order::sorted(turned_changes(changes, status), change_precedes()),
{
    let image = |change: FunctionChangeView| turned_change(change, status);
    assert forall|left: FunctionChangeView, right: FunctionChangeView| #[trigger]
        change_precedes()(left, right) == change_precedes()(image(left), image(right)) by {}
    sorted_mapped(changes, change_precedes(), image, change_precedes());
}

/// Compared the other way round, what was added is removed and what was removed
/// is added, in the same order, with every difference turned round.
pub proof fn added_and_removed_change_places(before: Seq<EntryView>, after: Seq<EntryView>)
    requires
        before.len() <= usize::MAX,
        after.len() <= usize::MAX,
        scores_countable(before),
        scores_countable(after),
    ensures
        changes_with(after, before, partners(after, before), ChangeStatus::Removed)
            == turned_changes(
            changes_with(before, after, partners(before, after), ChangeStatus::Added),
            ChangeStatus::Removed,
        ),
        changes_with(after, before, partners(after, before), ChangeStatus::Added)
            == turned_changes(
            changes_with(before, after, partners(before, after), ChangeStatus::Removed),
            ChangeStatus::Added,
        ),
{
    let forth = partners(before, after);
    let back = partners(after, before);
    matching_is_symmetric(before, after);
    matching_is_symmetric(after, before);
    matching_is_one_to_one(before, after);
    matching_is_one_to_one(after, before);
    lemma_gone_and_come(before, after, forth, back, before.len());
    lemma_gone_and_come(after, before, back, forth, after.len());
    lemma_turned_order(
        ChangeStatus::Removed,
        added_upto(after, forth, after.len()),
    );
    lemma_turned_order(
        ChangeStatus::Added,
        fates_upto(before, after, forth, ChangeStatus::Removed, before.len()),
    );
}

/// Compared the other way round, a pair of callables changed or moved if and
/// only if it did, with its scores exchanged and its difference turned round,
/// under the name that the callable has on the other side.
pub proof fn changed_pairs_stay(before: Seq<EntryView>, after: Seq<EntryView>, left: int, right: int)
    requires
        before.len() <= usize::MAX,
        after.len() <= usize::MAX,
        scores_countable(before),
        scores_countable(after),
        0 <= left < before.len(),
        0 <= right < after.len(),
        partners(before, after)[left] == Some(right as usize),
    ensures
        partners(after, before)[right] == Some(left as usize),
        match (
            fate(before, after, partners(before, after), left),
            fate(after, before, partners(after, before), right),
        ) {
            (None, None) => true,
            (Some(change), Some(other)) => other == (FunctionChangeView {
                path: before[left].path,
                name: before[left].name,
                kind: before[left].kind,
                category: before[left].category,
                ..turned_change(change, change.status)
            }) && change.path == after[right].path && change.name == after[right].name,
            _ => false,
        },
{
    matching_is_symmetric(before, after);
    matching_is_one_to_one(before, after);
    matching_is_one_to_one(after, before);
    assert(before[left].function.score.value <= i64::MAX);
    assert(after[right].function.score.value <= i64::MAX);
}

proof fn lemma_fates_listed(
    before: Seq<EntryView>,
    after: Seq<EntryView>,
    matched: Seq<Option<usize>>,
    status: ChangeStatus,
    count: nat,
    change: FunctionChangeView,
)
    requires
        count <= before.len(),
    ensures
        fates_upto(before, after, matched, status, count).contains(change) <==> (exists|index: int|
            0 <= index < count && #[trigger] fate(before, after, matched, index) == Some(change)
                && change.status == status),
    decreases count,
{
    if count > 0 {
        lemma_fates_listed(before, after, matched, status, (count - 1) as nat, change);
        let earlier = fates_upto(before, after, matched, status, (count - 1) as nat);
        let listed = fates_upto(before, after, matched, status, count);
        let own = fate(before, after, matched, count - 1);
        if earlier.contains(change) {
            let place = choose|place: int|
                0 <= place < earlier.len() && earlier[place] == change;
            assert(listed[place] == change);
        }
        if own == Some(change) && change.status == status {
            assert(listed[listed.len() - 1] == change);
        }
        if listed.contains(change) && !earlier.contains(change) {
            let place = choose|place: int| 0 <= place < listed.len() && listed[place] == change;
            if place < earlier.len() {
                assert(earlier[place] == change);
            }
            assert(own == Some(change));
        }
    }
}

proof fn lemma_change_listed(
    before: Seq<EntryView>,
    after: Seq<EntryView>,
    matched: Seq<Option<usize>>,
    status: ChangeStatus,
    change: FunctionChangeView,
)
    requires
        status != ChangeStatus::Added,
    ensures
        changes_with(before, after, matched, status).contains(change) <==> (exists|index: int|
            0 <= index < before.len() && #[trigger] fate(before, after, matched, index) == Some(
                change,
            ) && change.status == status),
{
    let listed = fates_upto(before, after, matched, status, before.len());
    lemma_fates_listed(before, after, matched, status, before.len(), change);
    lemma_sorted_holds(listed, listed.len(), change_precedes(), change);
}

/// Compared the other way round, the same pairs of callables are listed as
/// changed, and the same as moved: for each that is listed, its partner is.
pub proof fn changed_callables_are_listed_both_ways(
    before: Seq<EntryView>,
    after: Seq<EntryView>,
    status: ChangeStatus,
    change: FunctionChangeView,
) -> (pair: (int, int))
    requires
        before.len() <= usize::MAX,
        after.len() <= usize::MAX,
        scores_countable(before),
        scores_countable(after),
        status == ChangeStatus::Changed || status == ChangeStatus::Moved,
        changes_with(before, after, partners(before, after), status).contains(change),
    ensures
        0 <= pair.0 < before.len(),
        0 <= pair.1 < after.len(),
        partners(before, after)[pair.0] == Some(pair.1 as usize),
        change == change_of(after[pair.1], status, change.before_score, change.after_score),
        changes_with(after, before, partners(after, before), status).contains(
            FunctionChangeView {
                path: before[pair.0].path,
                name: before[pair.0].name,
                kind: before[pair.0].kind,
                category: before[pair.0].category,
                ..turned_change(change, status)
            },
        ),
{
    let forth = partners(before, after);
    let back = partners(after, before);
    lemma_change_listed(before, after, forth, status, change);
    let left = choose|index: int|
        0 <= index < before.len() && #[trigger] fate(before, after, forth, index) == Some(change)
            && change.status == status;
    matching_is_one_to_one(before, after);
    assert(forth[left] is Some);
    let right = forth[left]->Some_0 as int;
    changed_pairs_stay(before, after, left, right);
    let other = fate(after, before, back, right)->Some_0;
    lemma_change_listed(after, before, back, status, other);
    assert(fate(after, before, back, right) == Some(other));
    (left, right)
}

/// The files of a path with the two sides exchanged.
spec fn exchanged(pair: FilePairView) -> FilePairView {
    FilePairView { before: pair.after, after: pair.before }
}

/// Whether the files of every pair have one path, and there is one at least.
spec fn paths_agree(pairs: Seq<FilePairView>) -> bool {
    forall|index: int|
        0 <= index < pairs.len() ==> match ((#[trigger] pairs[index]).before, pairs[index].after) {
            (Some(left), Some(right)) => left.path@ == right.path@,
            (None, None) => false,
            _ => true,
        }
}

proof fn lemma_pairs_exchanged(
    before: Seq<InputFile>,
    after: Seq<InputFile>,
    left: int,
    right: int,
)
    requires
        0 <= left <= before.len(),
        0 <= right <= after.len(),
    ensures
        pairs_from(after, before, right, left) == pairs_from(before, after, left, right).map_values(
            |pair: FilePairView| exchanged(pair),
        ),
        paths_agree(pairs_from(before, after, left, right)),
    decreases before.len() - left + after.len() - right,
{
    let forth = pairs_from(before, after, left, right);
    let back = pairs_from(after, before, right, left);
    text_order_is_total();
    if left < before.len() && right < after.len() {
        order_pair(text_order(), before[left].path@, after[right].path@);
        let relation = crate::order::text_relation(before[left].path@, after[right].path@);
        if relation == Relation::Before {
            lemma_pairs_exchanged(before, after, left + 1, right);
        } else if relation == Relation::After {
            lemma_pairs_exchanged(before, after, left, right + 1);
        } else {
            lemma_pairs_exchanged(before, after, left + 1, right + 1);
        }
    } else if left < before.len() {
        lemma_pairs_exchanged(before, after, left + 1, right);
    } else if right < after.len() {
        lemma_pairs_exchanged(before, after, left, right + 1);
    }
    assert(back =~= forth.map_values(|pair: FilePairView| exchanged(pair)));
}

proof fn lemma_paths_exchanged(pairs: Seq<FilePairView>, others: Seq<FilePairView>, count: nat)
    requires
        others == pairs.map_values(|pair: FilePairView| exchanged(pair)),
        paths_agree(pairs),
        count <= pairs.len(),
    ensures
        added_paths(others, count) == removed_paths(pairs, count),
        removed_paths(others, count) == added_paths(pairs, count),
    decreases count,
{
    if count > 0 {
        lemma_paths_exchanged(pairs, others, (count - 1) as nat);
        assert(others[count - 1] == exchanged(pairs[count - 1]));
        assert(match (pairs[count - 1].before, pairs[count - 1].after) {
            (Some(left), Some(right)) => left.path@ == right.path@,
            (None, None) => false,
            _ => true,
        });
    }
}

/// Whether one metric is another with its two sides exchanged. A difference that
/// its type can hold both ways is turned round.
pub open spec fn turned_metric(metric: MetricDelta, other: MetricDelta) -> bool {
    &&& other.before == metric.after
    &&& other.after == metric.before
    &&& -i64::MAX <= metric.after - metric.before <= i64::MAX ==> other.delta == -metric.delta
}

/// Whether all metrics of a burden are exchanged so.
pub open spec fn turned_burden(burden: BurdenDelta, other: BurdenDelta) -> bool {
    &&& turned_metric(burden.production, other.production)
    &&& turned_metric(burden.test, other.test)
    &&& turned_metric(burden.total, other.total)
}

/// Whether all metrics of callables are exchanged so.
pub open spec fn turned_stats(stats: CallableStats, other: CallableStats) -> bool {
    &&& turned_metric(stats.count, other.count)
    &&& turned_metric(stats.p95_score, other.p95_score)
    &&& turned_metric(stats.highest_score, other.highest_score)
}

/// Whether burdens of files are those of the same files, exchanged so.
pub open spec fn turned_files(burdens: Seq<FileBurdenView>, others: Seq<FileBurdenView>) -> bool {
    &&& burdens.len() == others.len()
    &&& forall|index: int|
        0 <= index < burdens.len() ==> (#[trigger] others[index]).path == burdens[index].path
            && turned_burden(burdens[index].burden, others[index].burden)
}

/// Components seen from the other side.
pub open spec fn turned_components(components: Seq<ComponentDeltaView>) -> Seq<
    ComponentDeltaView,
> {
    components.map_values(
        |component: ComponentDeltaView|
            ComponentDeltaView {
                name: component.name,
                before: component.after,
                after: component.before,
                delta: turned(component.delta),
            },
    )
}

/// Whether differences of languages are those of the same languages, exchanged.
pub open spec fn turned_languages(
    deltas: Seq<LanguageDeltaView>,
    others: Seq<LanguageDeltaView>,
) -> bool {
    &&& deltas.len() == others.len()
    &&& forall|index: int|
        0 <= index < deltas.len() ==> {
            &&& (#[trigger] others[index]).language == deltas[index].language
            &&& turned_burden(deltas[index].burden, others[index].burden)
            &&& others[index].components == turned_components(deltas[index].components)
        }
}

/// Whether the totals of all components are in the range of a difference.
pub open spec fn components_countable(listed: Seq<EntryView>) -> bool {
    forall|language: Option<Language>, component: int|
        0 <= component < 8 ==> #[trigger] component_totals(listed, language)[component] <= i64::MAX
}

proof fn lemma_components(
    before: Seq<EntryView>,
    after: Seq<EntryView>,
    language: Option<Language>,
)
    requires
        components_countable(before),
        components_countable(after),
    ensures
        component_differences(
            component_totals(after, language),
            component_totals(before, language),
        ) == turned_components(
            component_differences(
                component_totals(before, language),
                component_totals(after, language),
            ),
        ),
{
    let left = component_totals(before, language);
    let right = component_totals(after, language);
    let image = |component: ComponentDeltaView|
        ComponentDeltaView {
            name: component.name,
            before: component.after,
            after: component.before,
            delta: turned(component.delta),
        };
    assert forall|first: ComponentDeltaView, second: ComponentDeltaView| #[trigger]
        component_precedes()(first, second) == component_precedes()(
        image(first),
        image(second),
    ) by {}
    sorted_mapped(component_list(left, right), component_precedes(), image, component_precedes());
    assert forall|component: int| 0 <= component < 8 implies #[trigger] component_list(
        right,
        left,
    )[component] == image(component_list(left, right)[component]) by {
        assert(left[component] <= i64::MAX);
        assert(right[component] <= i64::MAX);
    }
    assert(component_list(right, left) =~= component_list(left, right).map_values(image));
}

proof fn lemma_language(
    before_files: Seq<InputFile>,
    after_files: Seq<InputFile>,
    before: Seq<EntryView>,
    after: Seq<EntryView>,
    language: Language,
)
    requires
        components_countable(before),
        components_countable(after),
    ensures
        turned_languages(
            language_difference(before_files, after_files, before, after, language),
            language_difference(after_files, before_files, after, before, language),
        ),
{
    lemma_components(before, after, Some(language));
}

proof fn lemma_languages_concat(
    first: Seq<LanguageDeltaView>,
    first_other: Seq<LanguageDeltaView>,
    second: Seq<LanguageDeltaView>,
    second_other: Seq<LanguageDeltaView>,
)
    requires
        turned_languages(first, first_other),
        turned_languages(second, second_other),
    ensures
        turned_languages(first + second, first_other + second_other),
{
    let whole = first_other + second_other;
    assert forall|index: int| 0 <= index < whole.len() implies {
        &&& (#[trigger] whole[index]).language == (first + second)[index].language
        &&& turned_burden((first + second)[index].burden, whole[index].burden)
        &&& whole[index].components == turned_components((first + second)[index].components)
    } by {
        if index < first.len() {
            assert(whole[index] == first_other[index]);
        } else {
            assert(whole[index] == second_other[index - first.len()]);
        }
    }
}

proof fn lemma_languages(
    before_files: Seq<InputFile>,
    after_files: Seq<InputFile>,
    before: Seq<EntryView>,
    after: Seq<EntryView>,
)
    requires
        components_countable(before),
        components_countable(after),
    ensures
        turned_languages(
            language_differences(before_files, after_files, before, after),
            language_differences(after_files, before_files, after, before),
        ),
{
    let forth = |language: Language|
        language_difference(before_files, after_files, before, after, language);
    let back = |language: Language|
        language_difference(after_files, before_files, after, before, language);
    lemma_language(before_files, after_files, before, after, Language::Rust);
    lemma_language(before_files, after_files, before, after, Language::Python);
    lemma_language(before_files, after_files, before, after, Language::JavaScript);
    lemma_language(before_files, after_files, before, after, Language::TypeScript);
    lemma_languages_concat(
        forth(Language::Rust),
        back(Language::Rust),
        forth(Language::Python),
        back(Language::Python),
    );
    lemma_languages_concat(
        forth(Language::Rust) + forth(Language::Python),
        back(Language::Rust) + back(Language::Python),
        forth(Language::JavaScript),
        back(Language::JavaScript),
    );
    lemma_languages_concat(
        forth(Language::Rust) + forth(Language::Python) + forth(Language::JavaScript),
        back(Language::Rust) + back(Language::Python) + back(Language::JavaScript),
        forth(Language::TypeScript),
        back(Language::TypeScript),
    );
}

/// Two comparisons with the reports exchanged mirror each other: every metric
/// and component has its sides exchanged and its difference turned round, and
/// what was added, files and callables, is removed, and the other way round, in
/// the same order.
pub proof fn exchanged_reports_mirror_each_other(
    forth: Comparison,
    back: Comparison,
    before_path: Seq<char>,
    after_path: Seq<char>,
    before: InputReport,
    after: InputReport,
)
    requires
        compares(forth, before_path, after_path, before, after),
        compares(back, after_path, before_path, after, before),
        entries(before.files@).len() <= usize::MAX,
        entries(after.files@).len() <= usize::MAX,
        scores_countable(entries(before.files@)),
        scores_countable(entries(after.files@)),
        components_countable(entries(before.files@)),
        components_countable(entries(after.files@)),
    ensures
        turned_burden(forth.burden, back.burden),
        turned_stats(forth.callables.production, back.callables.production),
        turned_stats(forth.callables.test, back.callables.test),
        turned_metric(forth.macro_opacity.invocations, back.macro_opacity.invocations),
        turned_metric(forth.macro_opacity.source_tokens, back.macro_opacity.source_tokens),
        turned_metric(forth.macro_opacity.definitions, back.macro_opacity.definitions),
        turned_metric(
            forth.macro_opacity.definition_tokens,
            back.macro_opacity.definition_tokens,
        ),
        component_views(back.components@) == turned_components(
            component_views(forth.components@),
        ),
        turned_languages(
            language_views(forth.language_deltas@),
            language_views(back.language_deltas@),
        ),
        turned_files(
            file_burden_views(forth.file_burdens@),
            file_burden_views(back.file_burdens@),
        ),
        texts(back.file_changes.added@) == texts(forth.file_changes.removed@),
        texts(back.file_changes.removed@) == texts(forth.file_changes.added@),
        back.scope.file_set_changed == forth.scope.file_set_changed,
        change_views(back.functions.added@) == turned_changes(
            change_views(forth.functions.removed@),
            ChangeStatus::Added,
        ),
        change_views(back.functions.removed@) == turned_changes(
            change_views(forth.functions.added@),
            ChangeStatus::Removed,
        ),
{
    let old_entries = entries(before.files@);
    let new_entries = entries(after.files@);
    let old_files = files_by_path(before.files@);
    let new_files = files_by_path(after.files@);
    let pairs = file_pairs(before, after);
    let others = file_pairs(after, before);
    lemma_pairs_exchanged(old_files, new_files, 0, 0);
    lemma_paths_exchanged(pairs, others, pairs.len());
    added_and_removed_change_places(old_entries, new_entries);
    lemma_components(old_entries, new_entries, None);
    lemma_languages(old_files, new_files, old_entries, new_entries);
    let burdens = file_burdens(pairs);
    let other_burdens = file_burdens(others);
    assert forall|index: int| 0 <= index < burdens.len() implies (
    #[trigger] other_burdens[index]).path == burdens[index].path && turned_burden(
        burdens[index].burden,
        other_burdens[index].burden,
    ) by {
        assert(others[index] == exchanged(pairs[index]));
        assert(match (pairs[index].before, pairs[index].after) {
            (Some(left), Some(right)) => left.path@ == right.path@,
            (None, None) => false,
            _ => true,
        });
    }
}

}
