//! Which callables of two reports are the same one.
//!
//! Matching goes through ever weaker evidence of identity. It uses evidence
//! only where it is unique on both sides: ambiguous evidence leaves callables
//! unmatched, and neither order nor score ever decides.
use vstd::prelude::*;
use crate::entries::{entry_views, has_same_key, same_key, EntryView, FunctionEntry};

verus! {

/// Evidence that two callables are the same one, from the strongest on.
#[derive(Clone, Copy, Debug, PartialEq, Eq, Structural)]
pub enum IdentityEvidence {
    Snapshot,
    DeclarationAndBody,
    Body,
    Declaration,
    QualifiedName,
}

/// Whether two texts agree and say something.
pub open spec fn agree(left: Seq<char>, right: Seq<char>) -> bool {
    left.len() > 0 && left == right
}

/// Whether two callables share evidence of a kind.
pub open spec fn shared(kind: IdentityEvidence, left: EntryView, right: EntryView) -> bool {
    match kind {
        IdentityEvidence::Snapshot => agree(
            left.function.snapshot_id@,
            right.function.snapshot_id@,
        ),
        IdentityEvidence::DeclarationAndBody => agree(
            left.function.declaration_fingerprint@,
            right.function.declaration_fingerprint@,
        ) && agree(left.function.body_fingerprint@, right.function.body_fingerprint@),
        IdentityEvidence::Body => agree(
            left.function.body_fingerprint@,
            right.function.body_fingerprint@,
        ),
        IdentityEvidence::Declaration => agree(
            left.function.declaration_fingerprint@,
            right.function.declaration_fingerprint@,
        ),
        IdentityEvidence::QualifiedName => same_key(left, right),
    }
}

/// Those of the first `count` entries that are open and share evidence with an
/// entry.
pub open spec fn holders_upto(
    entries: Seq<EntryView>,
    open: Seq<bool>,
    kind: IdentityEvidence,
    entry: EntryView,
    count: nat,
) -> Seq<usize>
    decreases count,
{
    if count == 0 {
        Seq::empty()
    } else {
        let earlier = holders_upto(entries, open, kind, entry, (count - 1) as nat);
        if open[count - 1] && shared(kind, entries[count - 1], entry) {
            earlier.push((count - 1) as usize)
        } else {
            earlier
        }
    }
}

/// The only open entry that shares evidence with an entry.
pub open spec fn sole_holder(
    entries: Seq<EntryView>,
    open: Seq<bool>,
    kind: IdentityEvidence,
    entry: EntryView,
) -> Option<usize> {
    let holders = holders_upto(entries, open, kind, entry, entries.len());
    if holders.len() == 1 {
        Some(holders[0])
    } else {
        None
    }
}

/// Which entries before have no partner yet.
pub open spec fn open_before(partners: Seq<Option<usize>>) -> Seq<bool> {
    partners.map_values(|partner: Option<usize>| partner is None)
}

/// Which of `count` entries after are nobody's partner yet.
pub open spec fn open_after(partners: Seq<Option<usize>>, count: nat) -> Seq<bool> {
    Seq::new(count, |index: int| !partners.contains(Some(index as usize)))
}

/// The partner of one entry before, once evidence of a kind has been used.
pub open spec fn partner_by(
    before: Seq<EntryView>,
    after: Seq<EntryView>,
    partners: Seq<Option<usize>>,
    kind: IdentityEvidence,
    index: int,
) -> Option<usize> {
    if partners[index] is Some {
        partners[index]
    } else if sole_holder(before, open_before(partners), kind, before[index]) is Some {
        sole_holder(after, open_after(partners, after.len()), kind, before[index])
    } else {
        None
    }
}

/// The partners of all entries before, once evidence of a kind has been used.
pub open spec fn partners_by(
    before: Seq<EntryView>,
    after: Seq<EntryView>,
    partners: Seq<Option<usize>>,
    kind: IdentityEvidence,
) -> Seq<Option<usize>> {
    Seq::new(before.len(), |index: int| partner_by(before, after, partners, kind, index))
}

/// The partner in the report after of each entry of the report before.
pub open spec fn partners(before: Seq<EntryView>, after: Seq<EntryView>) -> Seq<Option<usize>> {
    let none: Seq<Option<usize>> = Seq::new(before.len(), |index: int| None);
    let first = partners_by(before, after, none, IdentityEvidence::Snapshot);
    let second = partners_by(before, after, first, IdentityEvidence::DeclarationAndBody);
    let third = partners_by(before, after, second, IdentityEvidence::Body);
    let fourth = partners_by(before, after, third, IdentityEvidence::Declaration);
    partners_by(before, after, fourth, IdentityEvidence::QualifiedName)
}

/// Whether an entry shares evidence of any kind with another.
pub open spec fn related(left: EntryView, right: EntryView) -> bool {
    exists|kind: IdentityEvidence| shared(kind, left, right)
}

/// Whether an entry before is left without a partner although an entry after
/// that is left shares evidence with it.
pub open spec fn ambiguous(
    before: Seq<EntryView>,
    after: Seq<EntryView>,
    partners: Seq<Option<usize>>,
    index: int,
) -> bool {
    &&& partners[index] is None
    &&& exists|other: int|
        0 <= other < after.len() && #[trigger] open_after(partners, after.len())[other] && related(
            before[index],
            after[other],
        )
}

/// How many of the first `count` entries before are ambiguous.
pub open spec fn ambiguous_upto(
    before: Seq<EntryView>,
    after: Seq<EntryView>,
    partners: Seq<Option<usize>>,
    count: nat,
) -> nat
    decreases count,
{
    if count == 0 {
        0
    } else {
        ambiguous_upto(before, after, partners, (count - 1) as nat) + if ambiguous(
            before,
            after,
            partners,
            count - 1,
        ) {
            1nat
        } else {
            0nat
        }
    }
}

fn texts_agree(left: &String, right: &String) -> (answer: bool)
    ensures
        answer == agree(left@, right@),
{
    !left.as_str().is_empty() && *left == *right
}

fn share(kind: IdentityEvidence, left: &FunctionEntry, right: &FunctionEntry) -> (answer: bool)
    ensures
        answer == shared(kind, left@, right@),
{
    match kind {
        IdentityEvidence::Snapshot => texts_agree(
            &left.function.snapshot_id,
            &right.function.snapshot_id,
        ),
        IdentityEvidence::DeclarationAndBody => texts_agree(
            &left.function.declaration_fingerprint,
            &right.function.declaration_fingerprint,
        ) && texts_agree(&left.function.body_fingerprint, &right.function.body_fingerprint),
        IdentityEvidence::Body => texts_agree(
            &left.function.body_fingerprint,
            &right.function.body_fingerprint,
        ),
        IdentityEvidence::Declaration => texts_agree(
            &left.function.declaration_fingerprint,
            &right.function.declaration_fingerprint,
        ),
        IdentityEvidence::QualifiedName => has_same_key(left, right),
    }
}

proof fn lemma_holders_grow(
    entries: Seq<EntryView>,
    open: Seq<bool>,
    kind: IdentityEvidence,
    entry: EntryView,
    fewer: nat,
    more: nat,
)
    requires
        fewer <= more,
    ensures
        holders_upto(entries, open, kind, entry, fewer).len() <= holders_upto(
            entries,
            open,
            kind,
            entry,
            more,
        ).len(),
    decreases more,
{
    if fewer < more {
        lemma_holders_grow(entries, open, kind, entry, fewer, (more - 1) as nat);
    }
}

fn find_sole_holder(
    entries: &Vec<FunctionEntry>,
    open: &Vec<bool>,
    kind: IdentityEvidence,
    entry: &FunctionEntry,
) -> (holder: Option<usize>)
    requires
        open@.len() == entries@.len(),
    ensures
        holder == sole_holder(entry_views(entries@), open@, kind, entry@),
{
    let ghost views = entry_views(entries@);
    let mut found: Option<usize> = None;
    let mut index: usize = 0;
    while index < entries.len()
        invariant
            index <= entries@.len(),
            open@.len() == entries@.len(),
            views == entry_views(entries@),
            ({
                let holders = holders_upto(views, open@, kind, entry@, index as nat);
                match found {
                    Some(holder) => holders =~= seq![holder],
                    None => holders.len() == 0,
                }
            }),
        decreases entries@.len() - index,
    {
        if open[index] && share(kind, &entries[index], entry) {
            if found.is_some() {
                proof {
                    lemma_holders_grow(
                        views,
                        open@,
                        kind,
                        entry@,
                        (index + 1) as nat,
                        views.len(),
                    );
                }
                return None;
            }
            found = Some(index);
        }
        index += 1;
    }
    found
}

pub proof fn lemma_holder_listed(
    entries: Seq<EntryView>,
    open: Seq<bool>,
    kind: IdentityEvidence,
    entry: EntryView,
    count: nat,
)
    requires
        count <= entries.len() <= usize::MAX,
    ensures
        forall|place: int|
            0 <= place < holders_upto(entries, open, kind, entry, count).len() ==> {
                let holder = #[trigger] holders_upto(entries, open, kind, entry, count)[place];
                holder < count && open[holder as int] && shared(kind, entries[holder as int], entry)
            },
        forall|index: int|
            0 <= index < count && open[index] && shared(kind, #[trigger] entries[index], entry)
                ==> holders_upto(entries, open, kind, entry, count).contains(index as usize),
    decreases count,
{
    if count > 0 {
        lemma_holder_listed(entries, open, kind, entry, (count - 1) as nat);
        let earlier = holders_upto(entries, open, kind, entry, (count - 1) as nat);
        let listed = holders_upto(entries, open, kind, entry, count);
        assert forall|index: int|
            0 <= index < count && open[index] && shared(
                kind,
                #[trigger] entries[index],
                entry,
            ) implies listed.contains(index as usize) by {
            if index < count - 1 {
                let place = choose|place: int|
                    0 <= place < earlier.len() && earlier[place] == index as usize;
                assert(listed[place] == index as usize);
            } else {
                assert(listed[listed.len() - 1] == index as usize);
            }
        }
    }
}

/// Whether no entry after is the partner of two entries before.
pub open spec fn one_to_one(partners: Seq<Option<usize>>) -> bool {
    forall|left: int, right: int|
        0 <= left < right < partners.len() && #[trigger] partners[left] is Some
            ==> partners[left] != #[trigger] partners[right]
}

/// Whether every partner is one of `count` entries.
pub open spec fn partners_valid(partners: Seq<Option<usize>>, count: nat) -> bool {
    forall|index: int|
        0 <= index < partners.len() ==> match #[trigger] partners[index] {
            Some(partner) => partner < count,
            None => true,
        }
}

proof fn lemma_partners_by(
    before: Seq<EntryView>,
    after: Seq<EntryView>,
    partners: Seq<Option<usize>>,
    kind: IdentityEvidence,
)
    requires
        partners.len() == before.len(),
        before.len() <= usize::MAX,
        after.len() <= usize::MAX,
        one_to_one(partners),
        partners_valid(partners, after.len()),
    ensures
        one_to_one(partners_by(before, after, partners, kind)),
        partners_valid(partners_by(before, after, partners, kind), after.len()),
        partners_by(before, after, partners, kind).len() == before.len(),
{
    let next = partners_by(before, after, partners, kind);
    let before_open = open_before(partners);
    let after_open = open_after(partners, after.len());
    assert forall|index: int| 0 <= index < next.len() implies match #[trigger] next[index] {
        Some(partner) => partner < after.len(),
        None => true,
    } by {
        lemma_holder_listed(after, after_open, kind, before[index], after.len());
    }
    assert forall|left: int, right: int|
        0 <= left < right < next.len() && #[trigger] next[left] is Some implies next[left]
        != #[trigger] next[right] by {
        lemma_holder_listed(after, after_open, kind, before[left], after.len());
        lemma_holder_listed(after, after_open, kind, before[right], after.len());
        if next[left] == next[right] {
            let partner = next[left]->Some_0;
            if partners[left] is Some {
                assert(partners.contains(partners[left]));
                if partners[right] is None {
                    assert(after_open[partner as int]);
                }
            } else if partners[right] is Some {
                assert(partners.contains(partners[right]));
                assert(after_open[partner as int]);
            } else {
                assert(shared(kind, before[right], before[left]));
                assert(shared(kind, before[left], before[left]));
                lemma_holder_listed(before, before_open, kind, before[left], before.len());
                let holders = holders_upto(
                    before,
                    before_open,
                    kind,
                    before[left],
                    before.len(),
                );
                assert(holders.contains(left as usize));
                assert(holders.contains(right as usize));
            }
        }
    }
}

/// Matching is one to one: no callable of the report after is the partner of
/// two callables of the report before.
pub proof fn matching_is_one_to_one(before: Seq<EntryView>, after: Seq<EntryView>)
    requires
        before.len() <= usize::MAX,
        after.len() <= usize::MAX,
    ensures
        one_to_one(partners(before, after)),
        partners_valid(partners(before, after), after.len()),
        partners(before, after).len() == before.len(),
{
    let none: Seq<Option<usize>> = Seq::new(before.len(), |index: int| None);
    let first = partners_by(before, after, none, IdentityEvidence::Snapshot);
    let second = partners_by(before, after, first, IdentityEvidence::DeclarationAndBody);
    let third = partners_by(before, after, second, IdentityEvidence::Body);
    let fourth = partners_by(before, after, third, IdentityEvidence::Declaration);
    lemma_partners_by(before, after, none, IdentityEvidence::Snapshot);
    lemma_partners_by(before, after, first, IdentityEvidence::DeclarationAndBody);
    lemma_partners_by(before, after, second, IdentityEvidence::Body);
    lemma_partners_by(before, after, third, IdentityEvidence::Declaration);
    lemma_partners_by(before, after, fourth, IdentityEvidence::QualifiedName);
}

fn list_open_before(partners: &Vec<Option<usize>>) -> (open: Vec<bool>)
    ensures
        open@ == open_before(partners@),
{
    let mut open: Vec<bool> = Vec::new();
    let mut index: usize = 0;
    while index < partners.len()
        invariant
            index <= partners@.len(),
            open@ =~= open_before(partners@).take(index as int),
        decreases partners@.len() - index,
    {
        open.push(partners[index].is_none());
        index += 1;
    }
    assert(open@ =~= open_before(partners@));
    open
}

pub(crate) fn list_open_after(partners: &Vec<Option<usize>>, count: usize) -> (open: Vec<bool>)
    requires
        partners_valid(partners@, count as nat),
    ensures
        open@ == open_after(partners@, count as nat),
{
    let mut open: Vec<bool> = Vec::new();
    while open.len() < count
        invariant
            open@.len() <= count,
            forall|index: int| 0 <= index < open@.len() ==> #[trigger] open@[index],
        decreases count - open@.len(),
    {
        open.push(true);
    }
    let mut index: usize = 0;
    while index < partners.len()
        invariant
            index <= partners@.len(),
            open@.len() == count,
            partners_valid(partners@, count as nat),
            forall|place: int|
                0 <= place < count ==> (#[trigger] open@[place] <==> !partners@.take(
                    index as int,
                ).contains(Some(place as usize))),
        decreases partners@.len() - index,
    {
        let ghost held = open@;
        let ghost shorter = partners@.take(index as int);
        let ghost longer = partners@.take(index + 1);
        if let Some(partner) = partners[index] {
            assert(partners@[index as int] is Some);
            open.set(partner, false);
        }
        proof {
            assert(longer =~= shorter.push(partners@[index as int]));
            assert forall|place: int| 0 <= place < count implies (#[trigger] open@[place]
                <==> !longer.contains(Some(place as usize))) by {
                assert(held[place] <==> !shorter.contains(Some(place as usize)));
                if shorter.contains(Some(place as usize)) {
                    let at = choose|at: int|
                        0 <= at < shorter.len() && shorter[at] == Some(place as usize);
                    assert(longer[at] == Some(place as usize));
                }
                if longer.contains(Some(place as usize)) {
                    let at = choose|at: int|
                        0 <= at < longer.len() && longer[at] == Some(place as usize);
                    if at < index {
                        assert(shorter[at] == Some(place as usize));
                    }
                }
                if partners@[index as int] == Some(place as usize) {
                    assert(longer[index as int] == Some(place as usize));
                }
            }
        }
        index += 1;
    }
    assert(partners@.take(partners@.len() as int) =~= partners@);
    assert(open@ =~= open_after(partners@, count as nat));
    open
}

fn match_by(
    before: &Vec<FunctionEntry>,
    after: &Vec<FunctionEntry>,
    partners: Vec<Option<usize>>,
    kind: IdentityEvidence,
) -> (result: Vec<Option<usize>>)
    requires
        partners@.len() == before@.len(),
        one_to_one(partners@),
        partners_valid(partners@, after@.len()),
    ensures
        result@ == partners_by(entry_views(before@), entry_views(after@), partners@, kind),
        result@.len() == before@.len(),
        one_to_one(result@),
        partners_valid(result@, after@.len()),
{
    let ghost before_views = entry_views(before@);
    let ghost after_views = entry_views(after@);
    let before_open = list_open_before(&partners);
    let after_open = list_open_after(&partners, after.len());
    let mut result: Vec<Option<usize>> = Vec::new();
    let mut index: usize = 0;
    while index < before.len()
        invariant
            index <= before@.len(),
            partners@.len() == before@.len(),
            before_views == entry_views(before@),
            after_views == entry_views(after@),
            before_open@ == open_before(partners@),
            after_open@ == open_after(partners@, after@.len()),
            result@ =~= partners_by(before_views, after_views, partners@, kind).take(index as int),
        decreases before@.len() - index,
    {
        assert(before_views[index as int] == before@[index as int]@);
        let partner: Option<usize> = if partners[index].is_some() {
            partners[index]
        } else if find_sole_holder(before, &before_open, kind, &before[index]).is_some() {
            find_sole_holder(after, &after_open, kind, &before[index])
        } else {
            None
        };
        result.push(partner);
        index += 1;
    }
    assert(result@ =~= partners_by(before_views, after_views, partners@, kind));
    proof {
        lemma_partners_by(before_views, after_views, partners@, kind);
    }
    result
}

pub(crate) fn match_entries(before: &Vec<FunctionEntry>, after: &Vec<FunctionEntry>) -> (result: Vec<
    Option<usize>,
>)
    ensures
        result@ == partners(entry_views(before@), entry_views(after@)),
        result@.len() == before@.len(),
        partners_valid(result@, after@.len()),
{
    let mut none: Vec<Option<usize>> = Vec::new();
    while none.len() < before.len()
        invariant
            none@.len() <= before@.len(),
            forall|index: int| 0 <= index < none@.len() ==> #[trigger] none@[index] is None,
        decreases before@.len() - none@.len(),
    {
        none.push(None);
    }
    assert(none@ =~= Seq::new(entry_views(before@).len(), |index: int| None));
    let first = match_by(before, after, none, IdentityEvidence::Snapshot);
    let second = match_by(before, after, first, IdentityEvidence::DeclarationAndBody);
    let third = match_by(before, after, second, IdentityEvidence::Body);
    let fourth = match_by(before, after, third, IdentityEvidence::Declaration);
    match_by(before, after, fourth, IdentityEvidence::QualifiedName)
}

fn are_related(left: &FunctionEntry, right: &FunctionEntry) -> (answer: bool)
    ensures
        answer == related(left@, right@),
{
    let answer = share(IdentityEvidence::Snapshot, left, right) || share(
        IdentityEvidence::DeclarationAndBody,
        left,
        right,
    ) || share(IdentityEvidence::Body, left, right) || share(
        IdentityEvidence::Declaration,
        left,
        right,
    ) || share(IdentityEvidence::QualifiedName, left, right);
    proof {
        if related(left@, right@) {
            let kind = choose|kind: IdentityEvidence| shared(kind, left@, right@);
            match kind {
                IdentityEvidence::Snapshot => {},
                IdentityEvidence::DeclarationAndBody => {},
                IdentityEvidence::Body => {},
                IdentityEvidence::Declaration => {},
                IdentityEvidence::QualifiedName => {},
            }
        }
    }
    answer
}

pub(crate) fn count_ambiguous(
    before: &Vec<FunctionEntry>,
    after: &Vec<FunctionEntry>,
    partners: &Vec<Option<usize>>,
) -> (count: usize)
    requires
        partners@.len() == before@.len(),
        partners_valid(partners@, after@.len()),
    ensures
        count == ambiguous_upto(
            entry_views(before@),
            entry_views(after@),
            partners@,
            before@.len(),
        ),
{
    let ghost before_views = entry_views(before@);
    let ghost after_views = entry_views(after@);
    let open = list_open_after(partners, after.len());
    let mut count: usize = 0;
    let mut index: usize = 0;
    while index < before.len()
        invariant
            index <= before@.len(),
            count <= index,
            partners@.len() == before@.len(),
            before_views == entry_views(before@),
            after_views == entry_views(after@),
            open@ == open_after(partners@, after@.len()),
            count == ambiguous_upto(before_views, after_views, partners@, index as nat),
        decreases before@.len() - index,
    {
        assert(before_views[index as int] == before@[index as int]@);
        if partners[index].is_none() {
            let mut found: bool = false;
            let mut other: usize = 0;
            while other < after.len() && !found
                invariant
                    other <= after@.len(),
                    index < before@.len(),
                    partners@.len() == before@.len(),
                    before_views == entry_views(before@),
                    before_views[index as int] == before@[index as int]@,
                    after_views == entry_views(after@),
                    open@ == open_after(partners@, after@.len()),
                    partners@[index as int] is None,
                    found ==> ambiguous(before_views, after_views, partners@, index as int),
                    !found ==> forall|earlier: int|
                        0 <= earlier < other && #[trigger] open@[earlier] ==> !related(
                            before_views[index as int],
                            after_views[earlier],
                        ),
                decreases after@.len() - other,
            {
                assert(after_views[other as int] == after@[other as int]@);
                assert(open@[other as int] == open_after(partners@, after_views.len())[other as int]);
                found = open[other] && are_related(&before[index], &after[other]);
                other += 1;
            }
            if found {
                count += 1;
            }
        }
        index += 1;
    }
    count
}

}
