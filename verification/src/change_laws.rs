//! How a comparison matches callables, and what it says became of them.
use vstd::prelude::*;
use crate::deltas::{
    added_upto, change_precedes, changes_with, fate, fates_upto, ChangeStatus, FunctionChangeView,
};
use crate::entries::EntryView;
use crate::matching::{
    holders_upto, lemma_holder_listed, open_after, open_before, partners, partners_by,
    IdentityEvidence,
};
use crate::order::{
    lemma_sorted_holds, order_pair, order_triple, sorted_is_ordered, sorted_length, text_order,
    text_order_is_total,
};
use crate::sums::{total, total_push};

verus! {

/// Whether a callable and its partner agree in where they stand, in name, kind and
/// category, and in score and metrics.
pub open spec fn unchanged(before: EntryView, after: EntryView) -> bool {
    &&& before.path == after.path
    &&& before.name == after.name
    &&& before.kind == after.kind
    &&& before.category == after.category
    &&& before.function.score == after.function.score
    &&& before.function.metrics == after.function.metrics
}

/// What became of a callable: it has no partner and is gone, its partner stands in
/// another file, its partner differs from it, or nothing changed.
pub open spec fn became(
    before: Seq<EntryView>,
    after: Seq<EntryView>,
    matched: Seq<Option<usize>>,
    index: int,
) -> Option<ChangeStatus> {
    match matched[index] {
        None => Some(ChangeStatus::Removed),
        Some(partner) => if before[index].path != after[partner as int].path {
            Some(ChangeStatus::Moved)
        } else if !unchanged(before[index], after[partner as int]) {
            Some(ChangeStatus::Changed)
        } else {
            None
        },
    }
}

/// How a change is told: under the names of the callable as it is now, or as it was
/// where it is gone, with both scores and the difference of the two.
pub open spec fn told(
    before: Seq<EntryView>,
    after: Seq<EntryView>,
    matched: Seq<Option<usize>>,
    index: int,
    change: FunctionChangeView,
) -> bool {
    let old = before[index];
    let shown = match matched[index] {
        Some(partner) => after[partner as int],
        None => old,
    };
    let new_score = match matched[index] {
        Some(partner) => after[partner as int].function.score.value as int,
        None => 0,
    };
    &&& change.path == shown.path
    &&& change.name == shown.name
    &&& change.kind == shown.kind
    &&& change.category == shown.category
    &&& change.before_score == Some(old.function.score.value)
    &&& matched[index] is None ==> change.after_score is None
    &&& matched[index] is Some ==> change.after_score == Some(new_score as usize)
    &&& -i64::MAX <= new_score - old.function.score.value <= i64::MAX ==> change.delta == new_score
        - old.function.score.value
}

proof fn lemma_fate(
    before: Seq<EntryView>,
    after: Seq<EntryView>,
    matched: Seq<Option<usize>>,
    index: int,
)
    ensures
        match (fate(before, after, matched, index), became(before, after, matched, index)) {
            (Some(change), Some(status)) => change.status == status && told(
                before,
                after,
                matched,
                index,
                change,
            ),
            (None, None) => true,
            _ => false,
        },
{
}

proof fn lemma_fates(
    before: Seq<EntryView>,
    after: Seq<EntryView>,
    matched: Seq<Option<usize>>,
    status: ChangeStatus,
    count: nat,
)
    requires
        count <= before.len(),
    ensures
        fates_upto(before, after, matched, status, count).len() == total(
            Seq::new(
                count,
                |index: int|
                    if became(before, after, matched, index) == Some(status) {
                        1nat
                    } else {
                        0nat
                    },
            ),
        ),
        forall|index: int|
            0 <= index < count && became(before, after, matched, index) == Some(status)
                ==> fates_upto(before, after, matched, status, count).contains(
                (#[trigger] fate(before, after, matched, index))->Some_0,
            ),
    decreases count,
{
    let worth = |index: int|
        if became(before, after, matched, index) == Some(status) {
            1nat
        } else {
            0nat
        };
    let all = fates_upto(before, after, matched, status, count);
    if count == 0 {
        assert(Seq::new(0, worth) =~= Seq::<nat>::empty());
    } else {
        lemma_fates(before, after, matched, status, (count - 1) as nat);
        lemma_fate(before, after, matched, count - 1);
        let earlier = fates_upto(before, after, matched, status, (count - 1) as nat);
        assert(Seq::new(count, worth) =~= Seq::new((count - 1) as nat, worth).push(
            worth(count - 1),
        ));
        total_push(Seq::new((count - 1) as nat, worth), worth(count - 1));
        assert forall|index: int|
            0 <= index < count && became(before, after, matched, index) == Some(
                status,
            ) implies all.contains((#[trigger] fate(before, after, matched, index))->Some_0) by {
            if index < count - 1 {
                let change = fate(before, after, matched, index)->Some_0;
                assert(earlier.contains(change));
                let at = choose|at: int| 0 <= at < earlier.len() && earlier[at] == change;
                assert(all[at] == change);
            } else {
                assert(all[all.len() - 1] == fate(before, after, matched, index)->Some_0);
            }
        }
    }
}

/// Of the callables that were, those without a partner are listed as removed, those
/// whose partner stands in another file as moved, and those whose partner differs as
/// changed: each that is one of these is told, and none else is.
pub proof fn changes_tell_what_became_of_callables(
    before: Seq<EntryView>,
    after: Seq<EntryView>,
    matched: Seq<Option<usize>>,
    status: ChangeStatus,
)
    requires
        status != ChangeStatus::Added,
    ensures
        changes_with(before, after, matched, status).len() == total(
            Seq::new(
                before.len(),
                |index: int|
                    if became(before, after, matched, index) == Some(status) {
                        1nat
                    } else {
                        0nat
                    },
            ),
        ),
        forall|index: int|
            0 <= index < before.len() && #[trigger] became(before, after, matched, index) == Some(
                status,
            ) ==> exists|change: FunctionChangeView| #[trigger]
                changes_with(before, after, matched, status).contains(change) && change.status
                    == status && told(before, after, matched, index, change),
{
    let listed = fates_upto(before, after, matched, status, before.len());
    lemma_fates(before, after, matched, status, before.len());
    sorted_length(listed, change_precedes());
    assert forall|index: int|
        0 <= index < before.len() && #[trigger] became(before, after, matched, index) == Some(
            status,
        ) implies exists|change: FunctionChangeView| #[trigger]
        changes_with(before, after, matched, status).contains(change) && change.status == status
            && told(before, after, matched, index, change) by {
        lemma_fate(before, after, matched, index);
        let change = fate(before, after, matched, index)->Some_0;
        assert(listed.contains(change));
        lemma_sorted_holds(listed, listed.len(), change_precedes(), change);
        let at = choose|at: int| 0 <= at < listed.len() && listed[at] == change;
        assert(changes_with(before, after, matched, status).contains(change));
    }
}

/// How a new callable is told.
pub open spec fn told_added(entry: EntryView, change: FunctionChangeView) -> bool {
    &&& change.path == entry.path
    &&& change.name == entry.name
    &&& change.kind == entry.kind
    &&& change.category == entry.category
    &&& change.status == ChangeStatus::Added
    &&& change.before_score is None
    &&& change.after_score == Some(entry.function.score.value)
    &&& entry.function.score.value <= i64::MAX ==> change.delta == entry.function.score.value
}

/// Whether a new callable is told among changes.
pub open spec fn told_among(changes: Seq<FunctionChangeView>, entry: EntryView) -> bool {
    exists|change: FunctionChangeView| #[trigger]
        changes.contains(change) && told_added(entry, change)
}

proof fn lemma_added(after: Seq<EntryView>, matched: Seq<Option<usize>>, count: nat)
    requires
        count <= after.len(),
    ensures
        added_upto(after, matched, count).len() == total(
            Seq::new(
                count,
                |index: int|
                    if matched.contains(Some(index as usize)) {
                        0nat
                    } else {
                        1nat
                    },
            ),
        ),
        forall|index: int|
            0 <= index < count && !matched.contains(Some(index as usize)) ==> told_among(
                added_upto(after, matched, count),
                #[trigger] after[index],
            ),
    decreases count,
{
    let worth = |index: int|
        if matched.contains(Some(index as usize)) {
            0nat
        } else {
            1nat
        };
    let all = added_upto(after, matched, count);
    if count == 0 {
        assert(Seq::new(0, worth) =~= Seq::<nat>::empty());
    } else {
        lemma_added(after, matched, (count - 1) as nat);
        let earlier = added_upto(after, matched, (count - 1) as nat);
        assert(Seq::new(count, worth) =~= Seq::new((count - 1) as nat, worth).push(
            worth(count - 1),
        ));
        total_push(Seq::new((count - 1) as nat, worth), worth(count - 1));
        assert forall|index: int|
            0 <= index < count && !matched.contains(Some(index as usize)) implies told_among(
            all,
            #[trigger] after[index],
        ) by {
            if index < count - 1 {
                assert(told_among(earlier, after[index]));
                let change = choose|change: FunctionChangeView| #[trigger]
                    earlier.contains(change) && told_added(after[index], change);
                let at = choose|at: int| 0 <= at < earlier.len() && earlier[at] == change;
                assert(all[at] == change);
                assert(all.contains(change));
            } else {
                let change = all[all.len() - 1];
                assert(told_added(after[index], change));
                assert(all.contains(change));
            }
        }
    }
}

/// The callables that are and that nothing was matched with are listed as added,
/// all of them and as many as there are.
pub proof fn new_callables_are_added(
    before: Seq<EntryView>,
    after: Seq<EntryView>,
    matched: Seq<Option<usize>>,
    index: int,
)
    requires
        0 <= index < after.len(),
        !matched.contains(Some(index as usize)),
    ensures
        changes_with(before, after, matched, ChangeStatus::Added).len() == total(
            Seq::new(
                after.len(),
                |place: int|
                    if matched.contains(Some(place as usize)) {
                        0nat
                    } else {
                        1nat
                    },
            ),
        ),
        told_among(changes_with(before, after, matched, ChangeStatus::Added), after[index]),
{
    let listed = added_upto(after, matched, after.len());
    lemma_added(after, matched, after.len());
    sorted_length(listed, change_precedes());
    assert(told_among(listed, after[index]));
    let change = choose|change: FunctionChangeView| #[trigger]
        listed.contains(change) && told_added(after[index], change);
    lemma_sorted_holds(listed, listed.len(), change_precedes(), change);
    let at = choose|at: int| 0 <= at < listed.len() && listed[at] == change;
    assert(changes_with(before, after, matched, ChangeStatus::Added).contains(change));
}

proof fn lemma_sole(
    listed: Seq<EntryView>,
    open: Seq<bool>,
    kind: IdentityEvidence,
    entry: EntryView,
    index: int,
    count: nat,
)
    requires
        count <= listed.len() <= usize::MAX,
        0 <= index < listed.len(),
        open[index],
        crate::matching::shared(kind, listed[index], entry),
        forall|other: int|
            0 <= other < listed.len() && other != index ==> !crate::matching::shared(
                kind,
                #[trigger] listed[other],
                entry,
            ),
    ensures
        holders_upto(listed, open, kind, entry, count) == if index < count {
            seq![index as usize]
        } else {
            Seq::<usize>::empty()
        },
    decreases count,
{
    if count > 0 {
        lemma_sole(listed, open, kind, entry, index, (count - 1) as nat);
        if count - 1 != index {
            assert(!crate::matching::shared(kind, listed[count - 1], entry));
        }
    }
    assert(holders_upto(listed, open, kind, entry, count) =~= if index < count {
        seq![index as usize]
    } else {
        Seq::<usize>::empty()
    });
}

proof fn lemma_kept_by(
    before: Seq<EntryView>,
    after: Seq<EntryView>,
    matched: Seq<Option<usize>>,
    kind: IdentityEvidence,
    index: int,
)
    requires
        0 <= index < before.len(),
        matched[index] is Some,
    ensures
        partners_by(before, after, matched, kind)[index] == matched[index],
{
}

/// Callables that carry one snapshot id, which no other callable of either report
/// carries, are matched with one another.
pub proof fn equal_snapshots_are_matched(
    before: Seq<EntryView>,
    after: Seq<EntryView>,
    left: int,
    right: int,
)
    requires
        before.len() <= usize::MAX,
        after.len() <= usize::MAX,
        0 <= left < before.len(),
        0 <= right < after.len(),
        before[left].function.snapshot_id@.len() > 0,
        before[left].function.snapshot_id@ == after[right].function.snapshot_id@,
        forall|other: int|
            0 <= other < before.len() && other != left ==> (
            #[trigger] before[other]).function.snapshot_id@ != before[left].function.snapshot_id@,
        forall|other: int|
            0 <= other < after.len() && other != right ==> (
            #[trigger] after[other]).function.snapshot_id@ != before[left].function.snapshot_id@,
    ensures
        partners(before, after)[left] == Some(right as usize),
{
    let none: Seq<Option<usize>> = Seq::new(before.len(), |index: int| None);
    let kind = IdentityEvidence::Snapshot;
    assert(open_after(none, after.len())[right]);
    lemma_sole(before, open_before(none), kind, before[left], left, before.len());
    lemma_sole(after, open_after(none, after.len()), kind, before[left], right, after.len());
    let first = partners_by(before, after, none, kind);
    assert(first[left] == Some(right as usize));
    let second = partners_by(before, after, first, IdentityEvidence::DeclarationAndBody);
    lemma_kept_by(before, after, first, IdentityEvidence::DeclarationAndBody, left);
    let third = partners_by(before, after, second, IdentityEvidence::Body);
    lemma_kept_by(before, after, second, IdentityEvidence::Body, left);
    let fourth = partners_by(before, after, third, IdentityEvidence::Declaration);
    lemma_kept_by(before, after, third, IdentityEvidence::Declaration, left);
    lemma_kept_by(before, after, fourth, IdentityEvidence::QualifiedName, left);
}

/// Whether no callable carries a snapshot id.
pub open spec fn no_snapshots(listed: Seq<EntryView>) -> bool {
    forall|index: int|
        0 <= index < listed.len() ==> (#[trigger] listed[index]).function.snapshot_id@.len() == 0
}

/// Whether no callable carries a fingerprint of its body, or of its declaration.
pub open spec fn no_prints(listed: Seq<EntryView>, bodies: bool) -> bool {
    forall|index: int|
        0 <= index < listed.len() ==> if bodies {
            (#[trigger] listed[index]).function.body_fingerprint@.len() == 0
        } else {
            listed[index].function.declaration_fingerprint@.len() == 0
        }
}

proof fn lemma_nothing_by(
    before: Seq<EntryView>,
    after: Seq<EntryView>,
    matched: Seq<Option<usize>>,
    kind: IdentityEvidence,
)
    requires
        before.len() <= usize::MAX,
        after.len() <= usize::MAX,
        matched == Seq::new(before.len(), |index: int| None::<usize>),
        forall|index: int|
            0 <= index < before.len() ==> !crate::matching::shared(
                kind,
                #[trigger] before[index],
                before[index],
            ),
    ensures
        partners_by(before, after, matched, kind) == matched,
{
    let next = partners_by(before, after, matched, kind);
    assert forall|index: int| 0 <= index < before.len() implies next[index] is None by {
        lemma_holder_listed(before, open_before(matched), kind, before[index], before.len());
        let holders = holders_upto(
            before,
            open_before(matched),
            kind,
            before[index],
            before.len(),
        );
        assert(!crate::matching::shared(kind, before[index], before[index]));
        if holders.len() == 1 {
            assert(crate::matching::shared(kind, before[holders[0] as int], before[index]));
            assert(!crate::matching::shared(
                kind,
                before[holders[0] as int],
                before[holders[0] as int],
            ));
        }
    }
    assert(next =~= matched);
}

/// Where a report carries neither snapshot ids nor declarations, callables with one
/// body, which no other callable of either report has, are matched with one another.
pub proof fn equal_bodies_are_matched(
    before: Seq<EntryView>,
    after: Seq<EntryView>,
    left: int,
    right: int,
)
    requires
        before.len() <= usize::MAX,
        after.len() <= usize::MAX,
        0 <= left < before.len(),
        0 <= right < after.len(),
        no_snapshots(before),
        no_prints(before, false),
        before[left].function.body_fingerprint@.len() > 0,
        before[left].function.body_fingerprint@ == after[right].function.body_fingerprint@,
        forall|other: int|
            0 <= other < before.len() && other != left ==> (
            #[trigger] before[other]).function.body_fingerprint@
                != before[left].function.body_fingerprint@,
        forall|other: int|
            0 <= other < after.len() && other != right ==> (
            #[trigger] after[other]).function.body_fingerprint@
                != before[left].function.body_fingerprint@,
    ensures
        partners(before, after)[left] == Some(right as usize),
{
    let none: Seq<Option<usize>> = Seq::new(before.len(), |index: int| None);
    lemma_nothing_by(before, after, none, IdentityEvidence::Snapshot);
    lemma_nothing_by(before, after, none, IdentityEvidence::DeclarationAndBody);
    let kind = IdentityEvidence::Body;
    assert(open_after(none, after.len())[right]);
    lemma_sole(before, open_before(none), kind, before[left], left, before.len());
    lemma_sole(after, open_after(none, after.len()), kind, before[left], right, after.len());
    let third = partners_by(before, after, none, kind);
    assert(third[left] == Some(right as usize));
    let fourth = partners_by(before, after, third, IdentityEvidence::Declaration);
    lemma_kept_by(before, after, third, IdentityEvidence::Declaration, left);
    lemma_kept_by(before, after, fourth, IdentityEvidence::QualifiedName, left);
}

/// Where reports carry neither snapshot ids nor bodies, callables with one
/// declaration, which no other callable of either report has, are matched with one
/// another.
pub proof fn equal_declarations_are_matched(
    before: Seq<EntryView>,
    after: Seq<EntryView>,
    left: int,
    right: int,
)
    requires
        before.len() <= usize::MAX,
        after.len() <= usize::MAX,
        0 <= left < before.len(),
        0 <= right < after.len(),
        no_snapshots(before),
        no_prints(before, true),
        before[left].function.declaration_fingerprint@.len() > 0,
        before[left].function.declaration_fingerprint@
            == after[right].function.declaration_fingerprint@,
        forall|other: int|
            0 <= other < before.len() && other != left ==> (
            #[trigger] before[other]).function.declaration_fingerprint@
                != before[left].function.declaration_fingerprint@,
        forall|other: int|
            0 <= other < after.len() && other != right ==> (
            #[trigger] after[other]).function.declaration_fingerprint@
                != before[left].function.declaration_fingerprint@,
    ensures
        partners(before, after)[left] == Some(right as usize),
{
    let none: Seq<Option<usize>> = Seq::new(before.len(), |index: int| None);
    lemma_nothing_by(before, after, none, IdentityEvidence::Snapshot);
    lemma_nothing_by(before, after, none, IdentityEvidence::DeclarationAndBody);
    lemma_nothing_by(before, after, none, IdentityEvidence::Body);
    let kind = IdentityEvidence::Declaration;
    assert(open_after(none, after.len())[right]);
    lemma_sole(before, open_before(none), kind, before[left], left, before.len());
    lemma_sole(after, open_after(none, after.len()), kind, before[left], right, after.len());
    let fourth = partners_by(before, after, none, kind);
    assert(fourth[left] == Some(right as usize));
    lemma_kept_by(before, after, fourth, IdentityEvidence::QualifiedName, left);
}

/// Where reports carry no evidence at all, callables of one path, name, kind and
/// category are matched with one another, if no other callable of either report has
/// all of these.
pub proof fn equal_names_are_matched(
    before: Seq<EntryView>,
    after: Seq<EntryView>,
    left: int,
    right: int,
)
    requires
        before.len() <= usize::MAX,
        after.len() <= usize::MAX,
        0 <= left < before.len(),
        0 <= right < after.len(),
        no_snapshots(before),
        no_prints(before, true),
        no_prints(before, false),
        before[left].path == after[right].path && before[left].name == after[right].name
            && before[left].kind == after[right].kind && before[left].category
            == after[right].category,
        forall|other: int|
            0 <= other < before.len() && other != left ==> !((#[trigger] before[other]).path
                == before[left].path && before[other].name == before[left].name
                && before[other].kind == before[left].kind && before[other].category
                == before[left].category),
        forall|other: int|
            0 <= other < after.len() && other != right ==> !((#[trigger] after[other]).path
                == before[left].path && after[other].name == before[left].name && after[other].kind
                == before[left].kind && after[other].category == before[left].category),
    ensures
        partners(before, after)[left] == Some(right as usize),
{
    let none: Seq<Option<usize>> = Seq::new(before.len(), |index: int| None);
    assert forall|index: int| 0 <= index < before.len() implies (
    #[trigger] before[index]).function.declaration_fingerprint@.len() == 0 by {}
    lemma_nothing_by(before, after, none, IdentityEvidence::Snapshot);
    lemma_nothing_by(before, after, none, IdentityEvidence::DeclarationAndBody);
    lemma_nothing_by(before, after, none, IdentityEvidence::Body);
    lemma_nothing_by(before, after, none, IdentityEvidence::Declaration);
    let kind = IdentityEvidence::QualifiedName;
    assert(open_after(none, after.len())[right]);
    lemma_sole(before, open_before(none), kind, before[left], left, before.len());
    lemma_sole(after, open_after(none, after.len()), kind, before[left], right, after.len());
}

/// The callables of a list of changes stand with the largest difference first, whether
/// up or down.
pub proof fn changes_start_with_the_largest(
    before: Seq<EntryView>,
    after: Seq<EntryView>,
    matched: Seq<Option<usize>>,
    status: ChangeStatus,
    left: int,
    right: int,
)
    requires
        0 <= left < right < changes_with(before, after, matched, status).len(),
    ensures
        ({
            let first = changes_with(before, after, matched, status)[left].delta;
            let second = changes_with(before, after, matched, status)[right].delta;
            &&& -first <= second <= first || first <= second <= -first
        }),
{
    let order = change_precedes();
    text_order_is_total();
    assert forall|first: FunctionChangeView, second: FunctionChangeView| #[trigger]
        order(first, second) || order(second, first) by {
        order_pair(text_order(), first.path, second.path);
        order_pair(text_order(), first.name, second.name);
        order_pair(text_order(), first.kind, second.kind);
    }
    assert forall|
        first: FunctionChangeView,
        middle: FunctionChangeView,
        second: FunctionChangeView,
    | #[trigger]
        order(first, middle) && #[trigger] order(middle, second) implies order(first, second) by {
        order_triple(text_order(), first.path, middle.path, second.path);
        order_pair(text_order(), first.path, middle.path);
        order_pair(text_order(), middle.path, second.path);
        order_triple(text_order(), first.name, middle.name, second.name);
        order_pair(text_order(), first.name, middle.name);
        order_pair(text_order(), middle.name, second.name);
        order_triple(text_order(), first.kind, middle.kind, second.kind);
        order_pair(text_order(), first.kind, middle.kind);
        order_pair(text_order(), middle.kind, second.kind);
    }
    let listed = if status == ChangeStatus::Added {
        added_upto(after, matched, after.len())
    } else {
        fates_upto(before, after, matched, status, before.len())
    };
    sorted_is_ordered(listed, order);
    let all = changes_with(before, after, matched, status);
    assert(order(all[left], all[right]));
}

}
