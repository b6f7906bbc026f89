//! How callables are named across reports.
use vstd::prelude::*;
use crate::callable_names::{
    closure_segment, name_stabilized, segment_end, segment_named, segments, segments_named,
    with_segment, ClosureNames, NameProgress,
};
use crate::text::{decimal, joined, joined_upto};

verus! {

/// The segment by which a closure at a place is reported.
pub open spec fn closure_at(place: Seq<char>) -> Seq<char> {
    "<closure@"@ + place + ">"@
}

proof fn lemma_closure(place: Seq<char>)
    ensures
        closure_segment(closure_at(place)),
{
    reveal_strlit("<closure@");
    reveal_strlit(">");
    let segment = closure_at(place);
    assert(segment.take("<closure@"@.len() as int) =~= "<closure@"@);
    assert(segment.last() == '>');
}

/// A closure is named by how many were met before it under the same name, not by where
/// it stands, and keeps its name when it is met again.
pub proof fn closures_are_numbered_as_they_are_met(progress: NameProgress, place: Seq<char>)
    requires
        !progress.known.names.dom().contains(
            with_segment(progress.reported, closure_at(place)),
        ),
    ensures
        ({
            let next = segment_named(progress, closure_at(place));
            let counts = progress.known.counts;
            let name = progress.stable;
            &&& !counts.dom().contains(name) ==> {
                &&& next.stable == with_segment(name, "<closure#"@ + decimal(1) + ">"@)
                &&& next.known.counts.dom().contains(name) && next.known.counts[name] == 1
            }
            &&& counts.dom().contains(name) && counts[name] < usize::MAX ==> {
                &&& next.stable == with_segment(
                    name,
                    "<closure#"@ + decimal((counts[name] + 1) as nat) + ">"@,
                )
                &&& next.known.counts.dom().contains(name) && next.known.counts[name]
                    == counts[name] + 1
            }
            &&& forall|other: Seq<char>|
                other != name ==> #[trigger] next.known.counts.dom().contains(other)
                    == counts.dom().contains(other) && (counts.dom().contains(other)
                    ==> next.known.counts[other] == counts[other])
            &&& {
                let again = segment_named(
                    NameProgress { known: next.known, ..progress },
                    closure_at(place),
                );
                again.stable == next.stable && again.known == next.known
            }
        }),
{
    lemma_closure(place);
}

/// Two closures at different places get one name where as many were met before them
/// under one name.
pub proof fn closure_names_do_not_tell_places(
    left: NameProgress,
    right: NameProgress,
    left_place: Seq<char>,
    right_place: Seq<char>,
)
    requires
        left.stable == right.stable,
        left.known.counts == right.known.counts,
        !left.known.names.dom().contains(with_segment(left.reported, closure_at(left_place))),
        !right.known.names.dom().contains(with_segment(right.reported, closure_at(right_place))),
    ensures
        segment_named(left, closure_at(left_place)).stable == segment_named(
            right,
            closure_at(right_place),
        ).stable,
{
    lemma_closure(left_place);
    lemma_closure(right_place);
}

/// Whether names can be the segments of a name without closures.
pub open spec fn plain_segments(parts: Seq<Seq<char>>) -> bool {
    &&& parts.len() > 0
    &&& forall|index: int|
        0 <= index < parts.len() ==> (#[trigger] parts[index]).len() > 0 && !parts[index].contains(
            ':',
        ) && parts[index][0] != '<'
}

proof fn lemma_plain_progress(known: ClosureNames, parts: Seq<Seq<char>>, count: nat)
    requires
        plain_segments(parts),
        0 < count <= parts.len(),
    ensures
        segments_named(known, parts, count).stable == joined_upto(parts, "::"@, count),
        segments_named(known, parts, count).known == known,
        joined_upto(parts, "::"@, count).len() > 0,
    decreases count,
{
    reveal_strlit("<closure@");
    let last = parts[count - 1];
    assert(last.len() > 0 && last[0] != '<');
    assert(!closure_segment(last)) by {
        if last.len() >= "<closure@"@.len() {
            assert(last.take("<closure@"@.len() as int)[0] == last[0]);
            assert("<closure@"@[0] == '<');
        }
    }
    if count > 1 {
        lemma_plain_progress(known, parts, (count - 1) as nat);
    } else {
        assert(segments_named(known, parts, 0).stable.len() == 0);
    }
}

proof fn lemma_segment_end(name: Seq<char>, start: int, end: int)
    requires
        0 <= start <= end <= name.len(),
        forall|index: int| start <= index < end ==> name[index] != ':',
        end == name.len() || (end + 1 < name.len() && name[end] == ':' && name[end + 1] == ':'),
    ensures
        segment_end(name, start) == end,
    decreases end - start,
{
    if start < end {
        lemma_segment_end(name, start + 1, end);
    }
}

proof fn lemma_tail(parts: Seq<Seq<char>>, from: nat, to: nat)
    requires
        from < to <= parts.len(),
    ensures
        joined_upto(parts, "::"@, to).len() >= joined_upto(parts, "::"@, from + 1).len(),
        joined_upto(parts, "::"@, to).take(joined_upto(parts, "::"@, from + 1).len() as int)
            == joined_upto(parts, "::"@, from + 1),
    decreases to,
{
    let whole = joined_upto(parts, "::"@, to);
    if from + 1 < to {
        lemma_tail(parts, from, (to - 1) as nat);
        let shorter = joined_upto(parts, "::"@, (to - 1) as nat);
        let head = joined_upto(parts, "::"@, from + 1);
        assert(whole.take(shorter.len() as int) =~= shorter);
        assert(whole.take(head.len() as int) =~= shorter.take(head.len() as int));
    } else {
        assert(whole.take(whole.len() as int) =~= whole);
    }
}

proof fn lemma_segments(parts: Seq<Seq<char>>, from: nat)
    requires
        plain_segments(parts),
        from < parts.len(),
    ensures
        ({
            let name = joined(parts, "::"@);
            let start = joined_upto(parts, "::"@, from + 1).len() - parts[from as int].len();
            segments(name, start) == parts.skip(from as int)
        }),
    decreases parts.len() - from,
{
    reveal_strlit("::");
    let name = joined(parts, "::"@);
    let part = parts[from as int];
    let head = joined_upto(parts, "::"@, from + 1);
    let start = head.len() - part.len();
    let end = head.len() as int;
    lemma_tail(parts, from, parts.len());
    assert(head.skip(start) =~= part);
    assert forall|index: int| start <= index < end implies name[index] != ':' by {
        assert(name.take(end)[index] == head[index]);
        assert(head.skip(start)[index - start] == part[index - start]);
        assert(part.contains(part[index - start]));
    }
    assert(name.subrange(start, end) =~= part) by {
        assert forall|index: int| 0 <= index < part.len() implies name[start + index]
            == #[trigger] part[index] by {
            assert(name.take(end)[start + index] == head[start + index]);
            assert(head.skip(start)[index] == head[start + index]);
        }
    }
    if from + 1 < parts.len() {
        lemma_tail(parts, from + 1, parts.len());
        let next = joined_upto(parts, "::"@, from + 2);
        assert(next == head + "::"@ + parts[from as int + 1]);
        assert(name.take(next.len() as int)[end] == ':');
        assert(name.take(next.len() as int)[end + 1] == ':');
        lemma_segment_end(name, start, end);
        lemma_segments(parts, from + 1);
        assert(next.len() - parts[from as int + 1].len() == end + 2);
        assert(parts.skip(from as int) =~= seq![part] + parts.skip(from as int + 1));
    } else {
        assert(head == name);
        lemma_segment_end(name, start, end);
        assert(parts.skip(from as int) =~= seq![part]);
    }
}

/// A name in which no closure occurs is stable as it is.
pub proof fn names_without_closures_stay(known: ClosureNames, parts: Seq<Seq<char>>)
    requires
        plain_segments(parts),
    ensures
        name_stabilized(known, joined(parts, "::"@)).stable == joined(parts, "::"@),
        name_stabilized(known, joined(parts, "::"@)).known == known,
        segments(joined(parts, "::"@), 0) == parts,
{
    lemma_segments(parts, 0);
    reveal_with_fuel(joined_upto, 2);
    assert(parts.skip(0) =~= parts);
    assert(joined_upto(parts, "::"@, 1) == parts[0]);
    lemma_plain_progress(known, parts, parts.len());
}

}
