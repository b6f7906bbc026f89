//! Where an offset in source is.
use vstd::prelude::*;
use crate::spans::{
    break_length, end_position_at, line_at, lines_from, position_at, source_lines, started_by,
    LineSpan,
};

verus! {

/// Whether a byte ends a line: a line feed, or, where carriage returns count, one that
/// no line feed follows.
pub open spec fn ends_line(bytes: Seq<u8>, index: int, carriage: bool) -> bool {
    bytes[index] == 0x0A || (carriage && bytes[index] == 0x0D && !(index + 1 < bytes.len()
        && bytes[index + 1] == 0x0A))
}

/// How many bytes between two places end a line.
pub open spec fn line_ends(bytes: Seq<u8>, start: int, end: int, carriage: bool) -> nat
    decreases end - start,
{
    if start >= end {
        0
    } else {
        line_ends(bytes, start, end - 1, carriage) + if ends_line(bytes, end - 1, carriage) {
            1nat
        } else {
            0nat
        }
    }
}

proof fn lemma_no_ends(bytes: Seq<u8>, start: int, end: int, carriage: bool)
    requires
        forall|index: int| start <= index < end ==> !ends_line(bytes, index, carriage),
    ensures
        line_ends(bytes, start, end, carriage) == 0,
    decreases end - start,
{
    if start < end {
        lemma_no_ends(bytes, start, end - 1, carriage);
    }
}

proof fn lemma_split(bytes: Seq<u8>, start: int, middle: int, end: int, carriage: bool)
    requires
        start <= middle <= end,
    ensures
        line_ends(bytes, start, end, carriage) == line_ends(bytes, start, middle, carriage)
            + line_ends(bytes, middle, end, carriage),
    decreases end - middle,
{
    if middle < end {
        lemma_split(bytes, start, middle, end - 1, carriage);
    }
}

proof fn lemma_started_first(first: LineSpan, rest: Seq<LineSpan>, offset: int, count: nat)
    requires
        count <= rest.len(),
    ensures
        started_by(seq![first] + rest, offset, count + 1) == started_by(rest, offset, count)
            + if first.start <= offset {
            1nat
        } else {
            0nat
        },
    decreases count,
{
    let all = seq![first] + rest;
    if count == 0 {
        assert(started_by(all, offset, 0) == 0);
        assert(all[0] == first);
    } else {
        lemma_started_first(first, rest, offset, (count - 1) as nat);
        assert(all[count as int] == rest[count - 1]);
    }
}

#[verifier::spinoff_prover]
#[verifier::rlimit(30)]
proof fn lemma_lines(
    bytes: Seq<u8>,
    index: int,
    start: int,
    carriage: bool,
    offset: int,
    begin: int,
)
    requires
        0 <= start <= index <= bytes.len() <= usize::MAX,
        start < bytes.len(),
        0 <= offset < bytes.len(),
        forall|place: int| start <= place < index ==> !ends_line(bytes, place, carriage),
        start <= offset ==> start <= begin <= offset && (begin == start || ends_line(
            bytes,
            begin - 1,
            carriage,
        )),
        start <= offset ==> forall|place: int|
            begin <= place < offset ==> !ends_line(bytes, place, carriage),
    ensures
        ({
            let lines = lines_from(bytes, index, start, carriage);
            let ended = line_ends(bytes, start, offset, carriage);
            &&& start > offset ==> started_by(lines, offset, lines.len()) == 0
            &&& start <= offset ==> started_by(lines, offset, lines.len()) == ended + 1
            &&& start <= offset ==> ended < lines.len() && lines[ended as int].start == begin
        }),
    decreases bytes.len() - index,
{
    let lines = lines_from(bytes, index, start, carriage);
    if index >= bytes.len() {
        let none = Seq::<LineSpan>::empty();
        lemma_started_first(lines[0], none, offset, 0);
        assert(lines =~= seq![lines[0]] + none);
        if start <= offset {
            if begin > start {
                assert(!ends_line(bytes, begin - 1, carriage));
            }
            lemma_no_ends(bytes, start, offset, carriage);
        }
    } else if break_length(bytes, index, carriage) > 0 {
        let next = index + break_length(bytes, index, carriage);
        let first = LineSpan { start: start as usize, end: index as usize };
        let rest = lines_from(bytes, next, next, carriage);
        assert(lines == seq![first] + rest);
        lemma_started_first(first, rest, offset, rest.len());
        assert(ends_line(bytes, next - 1, carriage));
        assert forall|place: int| start <= place < next - 1 implies !ends_line(
            bytes,
            place,
            carriage,
        ) by {}
        if offset >= next {
            assert(begin >= next);
            lemma_lines(bytes, next, next, carriage, offset, begin);
            lemma_no_ends(bytes, start, next - 1, carriage);
            lemma_split(bytes, start, next, offset, carriage);
            let ended = line_ends(bytes, next, offset, carriage);
            assert(lines[ended as int + 1] == rest[ended as int]);
        } else {
            if next < bytes.len() {
                lemma_lines(bytes, next, next, carriage, offset, begin);
            } else {
                assert(rest =~= Seq::<LineSpan>::empty());
            }
            if start <= offset {
                if begin > start {
                    assert(!ends_line(bytes, begin - 1, carriage));
                }
                lemma_no_ends(bytes, start, offset, carriage);
            }
        }
    } else {
        lemma_lines(bytes, index + 1, start, carriage, offset, begin);
    }
}

/// An offset in source is on the line that as many lines end before, and in the column
/// that counts the bytes from where the line begins; both count from one.
pub proof fn positions_count_lines_and_bytes(
    bytes: Seq<u8>,
    carriage: bool,
    offset: usize,
    begin: int,
)
    requires
        offset < bytes.len() < usize::MAX,
        0 <= begin <= offset,
        begin == 0 || ends_line(bytes, begin - 1, carriage),
        forall|place: int| begin <= place < offset ==> !ends_line(bytes, place, carriage),
    ensures
        ({
            let position = position_at(source_lines(bytes, carriage), offset);
            let ended = line_ends(bytes, 0, offset as int, carriage);
            &&& ended < usize::MAX ==> position.line == ended + 1
            &&& position.column == offset - begin + 1
        }),
{
    lemma_lines(bytes, 0, 0, carriage, offset as int, begin);
    let lines = source_lines(bytes, carriage);
    assert(line_at(lines, offset as int) == line_ends(bytes, 0, offset as int, carriage));
}

/// The end of a range is on the line that it is on, and not beyond the text of the
/// line.
pub proof fn ends_stay_on_their_lines(lines: Seq<LineSpan>, offset: usize)
    ensures
        ({
            let line = line_at(lines, offset as int);
            &&& line < lines.len() && offset <= lines[line].end ==> end_position_at(lines, offset)
                == position_at(lines, offset)
            &&& line < lines.len() && offset > lines[line].end ==> end_position_at(lines, offset)
                == position_at(lines, lines[line].end)
        }),
{
}

}
