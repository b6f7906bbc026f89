//! Names of callables that do not depend on source locations.
use vstd::prelude::*;
use vstd::string::{StrSliceExecFns, StringExecFns};
use crate::text::{characters, decimal, push_decimal};
use crate::text_map::TextMap;

verus! {

/// Where the segment that starts at `start` ends: before the next `::`.
pub open spec fn segment_end(name: Seq<char>, start: int) -> int
    decreases name.len() - start,
{
    if start >= name.len() {
        name.len() as int
    } else if start + 1 < name.len() && name[start] == ':' && name[start + 1] == ':' {
        start
    } else {
        segment_end(name, start + 1)
    }
}

/// The segments of a qualified name, from `start` on.
pub open spec fn segments(name: Seq<char>, start: int) -> Seq<Seq<char>>
    decreases name.len() + 2 - start,
{
    let end = segment_end(name, start);
    if end < start || end >= name.len() {
        seq![name.subrange(start, name.len() as int)]
    } else {
        seq![name.subrange(start, end)] + segments(name, end + 2)
    }
}

/// A qualified name with one more segment.
pub open spec fn with_segment(name: Seq<char>, segment: Seq<char>) -> Seq<char> {
    if name.len() == 0 {
        segment
    } else {
        name + "::"@ + segment
    }
}

/// Whether a segment names a closure by its place in the source.
pub open spec fn closure_segment(segment: Seq<char>) -> bool {
    &&& segment.len() >= "<closure@"@.len()
    &&& segment.take("<closure@"@.len() as int) == "<closure@"@
    &&& segment.last() == '>'
}

/// The names given to closures so far, by their reported names, and how many
/// closures each enclosing name has.
pub struct ClosureNames {
    pub names: Map<Seq<char>, Seq<char>>,
    pub counts: Map<Seq<char>, usize>,
}

/// A name on the way from its reported to its stable form.
pub struct NameProgress {
    pub reported: Seq<char>,
    pub stable: Seq<char>,
    pub known: ClosureNames,
}

/// The number of the next closure under a name.
pub open spec fn next_ordinal(counts: Map<Seq<char>, usize>, name: Seq<char>) -> usize {
    if counts.dom().contains(name) {
        if counts[name] < usize::MAX {
            (counts[name] + 1) as usize
        } else {
            usize::MAX
        }
    } else {
        1
    }
}

/// The segment of the `ordinal`-th closure under a name.
pub open spec fn ordinal_segment(ordinal: usize) -> Seq<char> {
    "<closure#"@ + decimal(ordinal as nat) + ">"@
}

/// The progress of a name after one more segment. A closure is numbered when
/// it is first met, and keeps its number.
pub open spec fn segment_named(progress: NameProgress, segment: Seq<char>) -> NameProgress {
    let reported = with_segment(progress.reported, segment);
    let known = progress.known;
    if !closure_segment(segment) {
        NameProgress { reported, stable: with_segment(progress.stable, segment), known }
    } else if known.names.dom().contains(reported) {
        NameProgress { reported, stable: known.names[reported], known }
    } else {
        let ordinal = next_ordinal(known.counts, progress.stable);
        let stable = with_segment(progress.stable, ordinal_segment(ordinal));
        NameProgress {
            reported,
            stable,
            known: ClosureNames {
                names: known.names.insert(reported, stable),
                counts: known.counts.insert(progress.stable, ordinal),
            },
        }
    }
}

/// The progress of a name after its first `count` segments.
pub open spec fn segments_named(
    known: ClosureNames,
    parts: Seq<Seq<char>>,
    count: nat,
) -> NameProgress
    decreases count,
{
    if count == 0 {
        NameProgress { reported: Seq::empty(), stable: Seq::empty(), known }
    } else {
        segment_named(segments_named(known, parts, (count - 1) as nat), parts[count - 1])
    }
}

/// The stable form of a name, with the closures known after it.
pub open spec fn name_stabilized(known: ClosureNames, name: Seq<char>) -> NameProgress {
    segments_named(known, segments(name, 0), segments(name, 0).len())
}

/// No closures known.
pub open spec fn no_closures() -> ClosureNames {
    ClosureNames { names: Map::empty(), counts: Map::empty() }
}

/// The closures named so far.
pub struct ClosureTable {
    names: TextMap<String>,
    counts: TextMap<usize>,
}

impl View for ClosureTable {
    type V = ClosureNames;

    closed spec fn view(&self) -> ClosureNames {
        ClosureNames {
            names: self.names@.map_values(|name: String| name@),
            counts: self.counts@,
        }
    }
}

fn push_segment(name: &mut String, segment: &str)
    ensures
        final(name)@ == with_segment(old(name)@, segment@),
{
    if !name.as_str().is_empty() {
        name.append("::");
    }
    name.append(segment);
    proof {
        if old(name)@.len() == 0 {
            assert(name@ =~= segment@);
        }
    }
}

fn is_closure_segment(segment: &str) -> (answer: bool)
    ensures
        answer == closure_segment(segment@),
{
    proof {
        reveal_strlit("<closure@");
    }
    let length: usize = segment.unicode_len();
    if length < 9 {
        return false;
    }
    let start = segment.substring_char(0, 9);
    crate::text::same_text(start, "<closure@") && segment.get_char(length - 1) == '>'
}

impl ClosureTable {
    pub closed spec fn well_formed(&self) -> bool {
        self.names.well_formed() && self.counts.well_formed()
    }

    pub fn new() -> (table: Self)
        ensures
            table.well_formed(),
            table@ == no_closures(),
    {
        let table = ClosureTable { names: TextMap::new(), counts: TextMap::new() };
        proof {
            assert(table@.names =~= no_closures().names);
            assert(table@.counts =~= no_closures().counts);
        }
        table
    }

    /// The stable form of one more segment, behind the stable form of those
    /// before it.
    fn name_segment(&mut self, reported: &mut String, stable: &mut String, segment: &str)
        requires
            old(self).well_formed(),
        ensures
            final(self).well_formed(),
            (NameProgress { reported: final(reported)@, stable: final(stable)@, known: final(self)@ })
                == segment_named(
                NameProgress { reported: old(reported)@, stable: old(stable)@, known: old(self)@ },
                segment@,
            ),
    {
        push_segment(reported, segment);
        if !is_closure_segment(segment) {
            push_segment(stable, segment);
            return ;
        }
        if let Some(name) = self.names.get(reported.as_str()) {
            *stable = name.clone();
            return ;
        }
        let ordinal: usize = match self.counts.get(stable.as_str()) {
            Some(count) => if *count < usize::MAX {
                *count + 1
            } else {
                usize::MAX
            },
            None => 1,
        };
        self.counts.set(stable.clone(), ordinal);
        let mut last = "<closure#".to_owned();
        push_decimal(&mut last, ordinal);
        last.append(">");
        push_segment(stable, last.as_str());
        self.names.set(reported.clone(), stable.clone());
        proof {
            assert(self@.names =~= old(self)@.names.insert(reported@, stable@));
        }
    }

    /// Analyzer reports identify closures with source locations. Comparisons
    /// use their order within each lexical parent instead, so unrelated line
    /// shifts do not turn every closure into a removed-and-added pair.
    pub fn stable_callable_name(&mut self, name: &str) -> (result: String)
        requires
            old(self).well_formed(),
        ensures
            final(self).well_formed(),
            result@ == name_stabilized(old(self)@, name@).stable,
            final(self)@ == name_stabilized(old(self)@, name@).known,
    {
        let parts = split_segments(name);
        let ghost texts = crate::text::texts(parts@);
        let ghost known = self@;
        let mut reported = String::new();
        let mut stable = String::new();
        let mut index: usize = 0;
        while index < parts.len()
            invariant
                index <= parts@.len(),
                texts == crate::text::texts(parts@),
                self.well_formed(),
                (NameProgress { reported: reported@, stable: stable@, known: self@ })
                    == segments_named(known, texts, index as nat),
            decreases parts@.len() - index,
        {
            self.name_segment(&mut reported, &mut stable, parts[index].as_str());
            index += 1;
        }
        stable
    }
}

fn split_segments(name: &str) -> (parts: Vec<String>)
    ensures
        crate::text::texts(parts@) == segments(name@, 0),
{
    let all = characters(name);
    let mut parts: Vec<String> = Vec::new();
    let mut start: usize = 0;
    let mut index: usize = 0;
    proof {
        assert(crate::text::texts(parts@) + segments(name@, 0) =~= segments(name@, 0));
    }
    while index < all.len()
        invariant
            all@ == name@,
            start <= index <= all@.len(),
            segment_end(name@, start as int) == segment_end(name@, index as int),
            crate::text::texts(parts@) + segments(name@, start as int) == segments(name@, 0),
        decreases all@.len() - index,
    {
        if index + 1 < all.len() && all[index] == ':' && all[index + 1] == ':' {
            let ghost held = crate::text::texts(parts@);
            let part = name.substring_char(start, index);
            parts.push(part.to_owned());
            proof {
                assert(crate::text::texts(parts@) =~= held.push(name@.subrange(start as int, index as int)));
                assert(held + segments(name@, start as int) =~= crate::text::texts(parts@) + segments(
                    name@,
                    index + 2,
                ));
            }
            index += 2;
            start = index;
        } else {
            index += 1;
        }
    }
    let ghost held = crate::text::texts(parts@);
    let part = name.substring_char(start, all.len());
    parts.push(part.to_owned());
    proof {
        assert(crate::text::texts(parts@) =~= held + segments(name@, start as int));
    }
    parts
}

}
