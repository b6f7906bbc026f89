//! Differences between two reports: metrics, score components and callables.
use vstd::prelude::*;
use crate::entries::{entry_views, same_key, EntryView, FunctionEntry};
use crate::matching::{open_after, partners_valid};
use crate::model::Language;
use crate::order::{
    chained, compare_text, number_relation, sorted, sorted_mapped, stable_sort, text_relation,
    Relation,
};
use crate::report_input::{InputFunction, InputScore};
use crate::sums::{clipped, multiplied};
use crate::text::{magnitude, magnitude_of};

verus! {

#[derive(Clone, Copy, Debug, PartialEq, Eq, Structural)]
pub struct MetricDelta {
    pub before: usize,
    pub after: usize,
    pub delta: i64,
}

/// The difference of two counts, within the range of its type.
pub open spec fn difference(before: int, after: int) -> i64 {
    let exact = after - before;
    if exact > i64::MAX {
        i64::MAX
    } else if exact < i64::MIN {
        i64::MIN
    } else {
        exact as i64
    }
}

/// A metric before and after.
pub open spec fn metric(before: usize, after: usize) -> MetricDelta {
    MetricDelta { before, after, delta: difference(before as int, after as int) }
}

/// Exchanging the two sides turns a difference round, unless its exact value
/// lies outside the range of its type.
pub proof fn difference_is_antisymmetric(before: usize, after: usize)
    requires
        -i64::MAX <= after - before <= i64::MAX,
    ensures
        difference(after as int, before as int) == -difference(before as int, after as int),
{
}

pub fn signed_delta(before: usize, after: usize) -> (delta: i64)
    ensures
        delta == difference(before as int, after as int),
{
    if after >= before {
        let growth: u64 = (after - before) as u64;
        if growth > 9223372036854775807 {
            i64::MAX
        } else {
            growth as i64
        }
    } else {
        let loss: u64 = (before - after) as u64;
        if loss > 9223372036854775807 {
            i64::MIN
        } else {
            -(loss as i64)
        }
    }
}

pub fn metric_delta(before: usize, after: usize) -> (result: MetricDelta)
    ensures
        result == metric(before, after),
{
    MetricDelta { before, after, delta: signed_delta(before, after) }
}

#[derive(Debug)]
pub struct ComponentDelta {
    pub name: String,
    pub before: usize,
    pub after: usize,
    pub delta: i64,
}

/// The plain content of a component's difference.
pub struct ComponentDeltaView {
    pub name: Seq<char>,
    pub before: usize,
    pub after: usize,
    pub delta: i64,
}

impl View for ComponentDelta {
    type V = ComponentDeltaView;

    open spec fn view(&self) -> ComponentDeltaView {
        ComponentDeltaView {
            name: self.name@,
            before: self.before,
            after: self.after,
            delta: self.delta,
        }
    }
}

impl Clone for ComponentDelta {
    fn clone(&self) -> (copy: Self)
        ensures
            copy == *self,
    {
        ComponentDelta {
            name: self.name.clone(),
            before: self.before,
            after: self.after,
            delta: self.delta,
        }
    }
}

/// The plain contents of components' differences.
pub open spec fn component_views(components: Seq<ComponentDelta>) -> Seq<ComponentDeltaView> {
    components.map_values(|component: ComponentDelta| component@)
}

/// The names of the score components, in the order of the score formula.
pub open spec fn component_name(component: int) -> Seq<char> {
    if component == 0 {
        "boundary"@
    } else if component == 1 {
        "control decisions"@
    } else if component == 2 {
        "nesting"@
    } else if component == 3 {
        "boolean operators"@
    } else if component == 4 {
        "expression operations"@
    } else if component == 5 {
        "call sites"@
    } else if component == 6 {
        "explicit parameters"@
    } else {
        "match arms"@
    }
}

fn name_component(component: usize) -> (name: &'static str)
    ensures
        name@ == component_name(component as int),
{
    match component {
        0 => "boundary",
        1 => "control decisions",
        2 => "nesting",
        3 => "boolean operators",
        4 => "expression operations",
        5 => "call sites",
        6 => "explicit parameters",
        _ => "match arms",
    }
}

/// The units of one component of a score.
pub open spec fn score_component(score: InputScore, component: int) -> usize {
    if component == 0 {
        score.boundary
    } else if component == 1 {
        clipped((score.control_decisions * 10) as nat)
    } else if component == 2 {
        clipped((score.nesting_penalty * 10) as nat)
    } else if component == 3 {
        score.boolean_operator_units
    } else if component == 4 {
        score.expression_operation_units
    } else if component == 5 {
        score.call_site_units
    } else if component == 6 {
        score.parameter_units
    } else {
        score.match_arm_units
    }
}

fn component_of(score: &InputScore, component: usize) -> (units: usize)
    ensures
        units == score_component(*score, component as int),
{
    match component {
        0 => score.boundary,
        1 => multiplied(score.control_decisions, 10),
        2 => multiplied(score.nesting_penalty, 10),
        3 => score.boolean_operator_units,
        4 => score.expression_operation_units,
        5 => score.call_site_units,
        6 => score.parameter_units,
        _ => score.match_arm_units,
    }
}

/// Whether an entry is of a language, where one is asked for.
pub open spec fn of_language(entry: EntryView, language: Option<Language>) -> bool {
    match language {
        Some(wanted) => entry.language == wanted,
        None => true,
    }
}

/// The units of one component in the first `count` entries, added up.
pub open spec fn component_total(
    entries: Seq<EntryView>,
    language: Option<Language>,
    component: int,
    count: nat,
) -> nat
    decreases count,
{
    if count == 0 {
        0
    } else {
        component_total(entries, language, component, (count - 1) as nat) + if of_language(
            entries[count - 1],
            language,
        ) {
            score_component(entries[count - 1].function.score, component) as nat
        } else {
            0
        }
    }
}

fn total_component(
    entries: &Vec<FunctionEntry>,
    language: Option<Language>,
    component: usize,
) -> (units: usize)
    ensures
        units == clipped(
            component_total(
                entry_views(entries@),
                language,
                component as int,
                entries@.len(),
            ),
        ),
{
    let ghost views = entry_views(entries@);
    let mut units: usize = 0;
    let mut index: usize = 0;
    while index < entries.len()
        invariant
            index <= entries@.len(),
            views == entry_views(entries@),
            units == clipped(component_total(views, language, component as int, index as nat)),
        decreases entries@.len() - index,
    {
        let entry = &entries[index];
        assert(views[index as int] == entry@);
        let counted: bool = match language {
            Some(wanted) => entry.file.language == wanted,
            None => true,
        };
        if counted {
            units = units.saturating_add(component_of(&entry.function.score, component));
        }
        index += 1;
    }
    units
}

/// The units of the eight components in entries.
pub open spec fn component_totals(
    entries: Seq<EntryView>,
    language: Option<Language>,
) -> Seq<usize> {
    Seq::new(
        8,
        |component: int|
            clipped(component_total(entries, language, component, entries.len())),
    )
}

pub(crate) fn total_components(entries: &Vec<FunctionEntry>, language: Option<Language>) -> (units: [usize; 8])
    ensures
        units@ == component_totals(entry_views(entries@), language),
{
    let units = [
        total_component(entries, language, 0),
        total_component(entries, language, 1),
        total_component(entries, language, 2),
        total_component(entries, language, 3),
        total_component(entries, language, 4),
        total_component(entries, language, 5),
        total_component(entries, language, 6),
        total_component(entries, language, 7),
    ];
    assert(units@ =~= component_totals(entry_views(entries@), language));
    units
}

/// Whether a component may stand before another: by the size of its
/// difference, then by name.
pub open spec fn component_precedes() -> spec_fn(ComponentDeltaView, ComponentDeltaView) -> bool {
    |left: ComponentDeltaView, right: ComponentDeltaView|
        chained(
            number_relation(
                magnitude(right.delta as int) as int,
                magnitude(left.delta as int) as int,
            ),
            text_relation(left.name, right.name),
        ) != Relation::After
}

/// The differences of the eight components, in the order of the formula.
pub open spec fn component_list(before: Seq<usize>, after: Seq<usize>) -> Seq<ComponentDeltaView> {
    Seq::new(
        8,
        |component: int|
            ComponentDeltaView {
                name: component_name(component),
                before: before[component],
                after: after[component],
                delta: difference(before[component] as int, after[component] as int),
            },
    )
}

/// The differences of the eight components, the largest first.
pub open spec fn component_differences(
    before: Seq<usize>,
    after: Seq<usize>,
) -> Seq<ComponentDeltaView> {
    sorted(component_list(before, after), component_precedes())
}

pub(crate) fn compare_magnitudes(left: i64, right: i64) -> (relation: Relation)
    ensures
        relation == number_relation(magnitude(left as int) as int, magnitude(right as int) as int),
{
    let left_size: u64 = magnitude_of(left);
    let right_size: u64 = magnitude_of(right);
    if left_size < right_size {
        Relation::Before
    } else if left_size > right_size {
        Relation::After
    } else {
        Relation::Same
    }
}

fn component_in_order(left: &ComponentDelta, right: &ComponentDelta) -> (answer: bool)
    ensures
        answer == component_precedes()(left@, right@),
{
    match compare_magnitudes(right.delta, left.delta) {
        Relation::Same => compare_text(left.name.as_str(), right.name.as_str()) != Relation::After,
        decided => decided != Relation::After,
    }
}

pub fn component_deltas(before: [usize; 8], after: [usize; 8]) -> (components: Vec<ComponentDelta>)
    ensures
        component_views(components@) == component_differences(before@, after@),
{
    let mut components: Vec<ComponentDelta> = Vec::new();
    while components.len() < 8
        invariant
            components@.len() <= 8,
            component_views(components@) =~= component_list(before@, after@).take(
                components@.len() as int,
            ),
        decreases 8 - components@.len(),
    {
        let ghost held = component_views(components@);
        let component: usize = components.len();
        let delta = ComponentDelta {
            name: name_component(component).to_owned(),
            before: before[component],
            after: after[component],
            delta: signed_delta(before[component], after[component]),
        };
        let ghost added = delta@;
        components.push(delta);
        assert(component_views(components@) =~= held.push(added));
    }
    let ghost order = |left: ComponentDelta, right: ComponentDelta|
        component_precedes()(left@, right@);
    proof {
        assert(component_views(components@) =~= component_list(before@, after@));
        sorted_mapped(
            components@,
            order,
            |component: ComponentDelta| component@,
            component_precedes(),
        );
    }
    stable_sort(components, component_in_order, Ghost(order))
}

#[derive(Clone, Copy, Debug, PartialEq, Eq, Structural)]
pub enum ChangeStatus {
    Changed,
    Moved,
    Added,
    Removed,
}

#[derive(Debug)]
pub struct FunctionChange {
    pub path: String,
    pub name: String,
    pub kind: String,
    pub category: String,
    pub status: ChangeStatus,
    pub before_score: Option<usize>,
    pub after_score: Option<usize>,
    pub delta: i64,
}

/// The plain content of a change.
pub struct FunctionChangeView {
    pub path: Seq<char>,
    pub name: Seq<char>,
    pub kind: Seq<char>,
    pub category: Seq<char>,
    pub status: ChangeStatus,
    pub before_score: Option<usize>,
    pub after_score: Option<usize>,
    pub delta: i64,
}

impl View for FunctionChange {
    type V = FunctionChangeView;

    open spec fn view(&self) -> FunctionChangeView {
        FunctionChangeView {
            path: self.path@,
            name: self.name@,
            kind: self.kind@,
            category: self.category@,
            status: self.status,
            before_score: self.before_score,
            after_score: self.after_score,
            delta: self.delta,
        }
    }
}

impl Clone for FunctionChange {
    fn clone(&self) -> (copy: Self)
        ensures
            copy == *self,
    {
        FunctionChange {
            path: self.path.clone(),
            name: self.name.clone(),
            kind: self.kind.clone(),
            category: self.category.clone(),
            status: self.status,
            before_score: self.before_score,
            after_score: self.after_score,
            delta: self.delta,
        }
    }
}

/// The plain contents of changes.
pub open spec fn change_views(changes: Seq<FunctionChange>) -> Seq<FunctionChangeView> {
    changes.map_values(|change: FunctionChange| change@)
}

/// A score, or zero where there is none.
pub open spec fn score_or_zero(score: Option<usize>) -> int {
    match score {
        Some(value) => value as int,
        None => 0,
    }
}

/// The change of a callable, under the key of an entry.
pub open spec fn change_of(
    entry: EntryView,
    status: ChangeStatus,
    before: Option<usize>,
    after: Option<usize>,
) -> FunctionChangeView {
    FunctionChangeView {
        path: entry.path,
        name: entry.name,
        kind: entry.kind,
        category: entry.category,
        status,
        before_score: before,
        after_score: after,
        delta: difference(score_or_zero(before), score_or_zero(after)),
    }
}

pub(crate) fn function_change(
    entry: &FunctionEntry,
    status: ChangeStatus,
    before: Option<usize>,
    after: Option<usize>,
) -> (change: FunctionChange)
    ensures
        change@ == change_of(entry@, status, before, after),
{
    let before_units: usize = match before {
        Some(value) => value,
        None => 0,
    };
    let after_units: usize = match after {
        Some(value) => value,
        None => 0,
    };
    FunctionChange {
        path: entry.file.path.clone(),
        name: entry.name.clone(),
        kind: entry.function.kind.clone(),
        category: entry.function.category.clone(),
        status,
        before_score: before,
        after_score: after,
        delta: signed_delta(before_units, after_units),
    }
}

/// Whether a change may stand before another: by the size of its difference,
/// then by path, name and kind.
pub open spec fn change_precedes() -> spec_fn(FunctionChangeView, FunctionChangeView) -> bool {
    |left: FunctionChangeView, right: FunctionChangeView|
        chained(
            number_relation(
                magnitude(right.delta as int) as int,
                magnitude(left.delta as int) as int,
            ),
            chained(
                text_relation(left.path, right.path),
                chained(text_relation(left.name, right.name), text_relation(left.kind, right.kind)),
            ),
        ) != Relation::After
}

fn change_in_order(left: &FunctionChange, right: &FunctionChange) -> (answer: bool)
    ensures
        answer == change_precedes()(left@, right@),
{
    let size = compare_magnitudes(right.delta, left.delta);
    if size != Relation::Same {
        return size == Relation::Before;
    }
    let path = compare_text(left.path.as_str(), right.path.as_str());
    if path != Relation::Same {
        return path == Relation::Before;
    }
    let name = compare_text(left.name.as_str(), right.name.as_str());
    if name != Relation::Same {
        return name == Relation::Before;
    }
    compare_text(left.kind.as_str(), right.kind.as_str()) != Relation::After
}

/// The changes with the largest differences first.
pub(crate) fn sort_function_changes(changes: Vec<FunctionChange>) -> (result: Vec<FunctionChange>)
    ensures
        change_views(result@) == sorted(change_views(changes@), change_precedes()),
{
    let ghost order = |left: FunctionChange, right: FunctionChange|
        change_precedes()(left@, right@);
    proof {
        sorted_mapped(changes@, order, |change: FunctionChange| change@, change_precedes());
    }
    stable_sort(changes, change_in_order, Ghost(order))
}

/// Whether a callable and its partner differ in name, kind, category, score or
/// metrics.
pub open spec fn pair_differs(before: EntryView, after: EntryView) -> bool {
    ||| !same_key(before, after)
    ||| before.function.score != after.function.score
    ||| before.function.metrics != after.function.metrics
}

/// What became of the `index`-th callable before: nothing worth listing, or a
/// change of its own.
pub open spec fn fate(
    before: Seq<EntryView>,
    after: Seq<EntryView>,
    partners: Seq<Option<usize>>,
    index: int,
) -> Option<FunctionChangeView> {
    let old_entry = before[index];
    match partners[index] {
        None => Some(
            change_of(
                old_entry,
                ChangeStatus::Removed,
                Some(old_entry.function.score.value),
                None,
            ),
        ),
        Some(partner) => {
            let new_entry = after[partner as int];
            if !pair_differs(old_entry, new_entry) {
                None
            } else {
                Some(
                    change_of(
                        new_entry,
                        if old_entry.path != new_entry.path {
                            ChangeStatus::Moved
                        } else {
                            ChangeStatus::Changed
                        },
                        Some(old_entry.function.score.value),
                        Some(new_entry.function.score.value),
                    ),
                )
            }
        },
    }
}

/// The changes with a status among those of the first `count` callables before.
pub open spec fn fates_upto(
    before: Seq<EntryView>,
    after: Seq<EntryView>,
    partners: Seq<Option<usize>>,
    status: ChangeStatus,
    count: nat,
) -> Seq<FunctionChangeView>
    decreases count,
{
    if count == 0 {
        Seq::empty()
    } else {
        let earlier = fates_upto(before, after, partners, status, (count - 1) as nat);
        match fate(before, after, partners, count - 1) {
            Some(change) => if change.status == status {
                earlier.push(change)
            } else {
                earlier
            },
            None => earlier,
        }
    }
}

/// The callables after that nothing before is matched with, among the first
/// `count`.
pub open spec fn added_upto(
    after: Seq<EntryView>,
    partners: Seq<Option<usize>>,
    count: nat,
) -> Seq<FunctionChangeView>
    decreases count,
{
    if count == 0 {
        Seq::empty()
    } else {
        let earlier = added_upto(after, partners, (count - 1) as nat);
        let entry = after[count - 1];
        if open_after(partners, after.len())[count - 1] {
            earlier.push(
                change_of(entry, ChangeStatus::Added, None, Some(entry.function.score.value)),
            )
        } else {
            earlier
        }
    }
}

/// The callables that changed in a way, the largest difference first.
pub open spec fn changes_with(
    before: Seq<EntryView>,
    after: Seq<EntryView>,
    partners: Seq<Option<usize>>,
    status: ChangeStatus,
) -> Seq<FunctionChangeView> {
    sorted(
        if status == ChangeStatus::Added {
            added_upto(after, partners, after.len())
        } else {
            fates_upto(before, after, partners, status, before.len())
        },
        change_precedes(),
    )
}

#[derive(Debug)]
pub struct FunctionChanges {
    pub changed: Vec<FunctionChange>,
    pub moved: Vec<FunctionChange>,
    pub added: Vec<FunctionChange>,
    pub removed: Vec<FunctionChange>,
}

/// Whether the changes of two lists of callables are listed.
pub open spec fn lists_changes(
    changes: FunctionChanges,
    before: Seq<EntryView>,
    after: Seq<EntryView>,
    partners: Seq<Option<usize>>,
) -> bool {
    &&& change_views(changes.changed@) == changes_with(
        before,
        after,
        partners,
        ChangeStatus::Changed,
    )
    &&& change_views(changes.moved@) == changes_with(before, after, partners, ChangeStatus::Moved)
    &&& change_views(changes.added@) == changes_with(before, after, partners, ChangeStatus::Added)
    &&& change_views(changes.removed@) == changes_with(
        before,
        after,
        partners,
        ChangeStatus::Removed,
    )
}

fn function_changed(before: &InputFunction, after: &InputFunction) -> (answer: bool)
    ensures
        answer == (before.score != after.score || before.metrics != after.metrics),
{
    before.score != after.score || before.metrics != after.metrics
}

fn find_fate(
    before: &Vec<FunctionEntry>,
    after: &Vec<FunctionEntry>,
    partners: &Vec<Option<usize>>,
    index: usize,
) -> (change: Option<FunctionChange>)
    requires
        index < before@.len(),
        partners@.len() == before@.len(),
        partners_valid(partners@, after@.len()),
    ensures
        match (change, fate(entry_views(before@), entry_views(after@), partners@, index as int)) {
            (Some(found), Some(expected)) => found@ == expected,
            (None, None) => true,
            _ => false,
        },
{
    let old_entry = &before[index];
    assert(entry_views(before@)[index as int] == old_entry@);
    let old_score: usize = old_entry.function.score.value;
    assert(partners_valid(partners@, after@.len()));
    match partners[index] {
        None => Some(
            function_change(old_entry, ChangeStatus::Removed, Some(old_score), None),
        ),
        Some(partner) => {
            assert(partners@[index as int] == Some(partner));
            let new_entry = &after[partner];
            assert(entry_views(after@)[partner as int] == new_entry@);
            let moved: bool = old_entry.file.path != new_entry.file.path;
            if !moved && crate::entries::has_same_key(old_entry, new_entry) && !function_changed(
                old_entry.function,
                new_entry.function,
            ) {
                return None;
            }
            let status = if moved {
                ChangeStatus::Moved
            } else {
                ChangeStatus::Changed
            };
            Some(
                function_change(
                    new_entry,
                    status,
                    Some(old_score),
                    Some(new_entry.function.score.value),
                ),
            )
        },
    }
}

pub(crate) fn compare_functions(
    before: &Vec<FunctionEntry>,
    after: &Vec<FunctionEntry>,
    partners: &Vec<Option<usize>>,
) -> (changes: FunctionChanges)
    requires
        partners@.len() == before@.len(),
        partners_valid(partners@, after@.len()),
    ensures
        lists_changes(changes, entry_views(before@), entry_views(after@), partners@),
{
    let ghost old_views = entry_views(before@);
    let ghost new_views = entry_views(after@);
    let mut changed: Vec<FunctionChange> = Vec::new();
    let mut moved: Vec<FunctionChange> = Vec::new();
    let mut added: Vec<FunctionChange> = Vec::new();
    let mut removed: Vec<FunctionChange> = Vec::new();
    let mut index: usize = 0;
    assert(change_views(changed@) =~= Seq::<FunctionChangeView>::empty());
    assert(change_views(moved@) =~= Seq::<FunctionChangeView>::empty());
    assert(change_views(removed@) =~= Seq::<FunctionChangeView>::empty());
    assert(change_views(added@) =~= Seq::<FunctionChangeView>::empty());
    while index < before.len()
        invariant
            index <= before@.len(),
            old_views == entry_views(before@),
            new_views == entry_views(after@),
            partners@.len() == before@.len(),
            partners_valid(partners@, after@.len()),
            change_views(changed@) == fates_upto(
                old_views,
                new_views,
                partners@,
                ChangeStatus::Changed,
                index as nat,
            ),
            change_views(moved@) == fates_upto(
                old_views,
                new_views,
                partners@,
                ChangeStatus::Moved,
                index as nat,
            ),
            change_views(removed@) == fates_upto(
                old_views,
                new_views,
                partners@,
                ChangeStatus::Removed,
                index as nat,
            ),
        decreases before@.len() - index,
    {
        let ghost held_changed = change_views(changed@);
        let ghost held_moved = change_views(moved@);
        let ghost held_removed = change_views(removed@);
        if let Some(change) = find_fate(before, after, partners, index) {
            let ghost found = change@;
            match change.status {
                ChangeStatus::Changed => {
                    changed.push(change);
                    assert(change_views(changed@) =~= held_changed.push(found));
                },
                ChangeStatus::Moved => {
                    moved.push(change);
                    assert(change_views(moved@) =~= held_moved.push(found));
                },
                ChangeStatus::Removed => {
                    removed.push(change);
                    assert(change_views(removed@) =~= held_removed.push(found));
                },
                ChangeStatus::Added => {},
            }
        }
        index += 1;
    }
    let open = crate::matching::list_open_after(partners, after.len());
    let mut place: usize = 0;
    while place < after.len()
        invariant
            place <= after@.len(),
            new_views == entry_views(after@),
            open@ == open_after(partners@, after@.len()),
            change_views(added@) == added_upto(new_views, partners@, place as nat),
        decreases after@.len() - place,
    {
        let ghost held = change_views(added@);
        let entry = &after[place];
        assert(new_views[place as int] == entry@);
        assert(open_after(partners@, new_views.len())[place as int] == open@[place as int]);
        if open[place] {
            let change = function_change(
                entry,
                ChangeStatus::Added,
                None,
                Some(entry.function.score.value),
            );
            let ghost found = change@;
            added.push(change);
            assert(change_views(added@) =~= held.push(found));
        }
        place += 1;
    }
    FunctionChanges {
        changed: sort_function_changes(changed),
        moved: sort_function_changes(moved),
        added: sort_function_changes(added),
        removed: sort_function_changes(removed),
    }
}

}
