//! Byte offsets, lines and tokens of source.
use vstd::prelude::*;
use vstd::utf8::{decode_utf8, encode_utf8, is_char_boundary};
use crate::model::Position;
use crate::text::texts;

verus! {

/// A line of source, without the break that ends it.
#[derive(Clone, Copy, Debug, PartialEq, Eq, Structural)]
pub struct LineSpan {
    pub start: usize,
    pub end: usize,
}

/// How long the line break at a place is; zero where there is none. Carriage
/// returns break lines only where they are asked to.
pub open spec fn break_length(bytes: Seq<u8>, index: int, carriage: bool) -> int {
    if bytes[index] == 0x0A {
        1
    } else if carriage && bytes[index] == 0x0D {
        if index + 1 < bytes.len() && bytes[index + 1] == 0x0A {
            2
        } else {
            1
        }
    } else {
        0
    }
}

/// The lines from a place on, in a line that starts at `start`.
pub open spec fn lines_from(
    bytes: Seq<u8>,
    index: int,
    start: int,
    carriage: bool,
) -> Seq<LineSpan>
    decreases bytes.len() - index,
{
    if index < 0 || index >= bytes.len() {
        if start < bytes.len() {
            seq![LineSpan { start: start as usize, end: bytes.len() as usize }]
        } else {
            Seq::empty()
        }
    } else if break_length(bytes, index, carriage) > 0 {
        let next = index + break_length(bytes, index, carriage);
        seq![LineSpan { start: start as usize, end: index as usize }] + lines_from(
            bytes,
            next,
            next,
            carriage,
        )
    } else {
        lines_from(bytes, index + 1, start, carriage)
    }
}

/// The lines of source.
pub open spec fn source_lines(bytes: Seq<u8>, carriage: bool) -> Seq<LineSpan> {
    lines_from(bytes, 0, 0, carriage)
}

/// How many of the first `count` lines start at or before an offset.
pub open spec fn started_by(lines: Seq<LineSpan>, offset: int, count: nat) -> nat
    decreases count,
{
    if count == 0 {
        0
    } else {
        started_by(lines, offset, (count - 1) as nat) + if lines[count - 1].start <= offset {
            1nat
        } else {
            0nat
        }
    }
}

/// The line, counted from zero, that an offset lies on.
pub open spec fn line_at(lines: Seq<LineSpan>, offset: int) -> int {
    let started = started_by(lines, offset, lines.len());
    if started > 0 {
        started - 1
    } else {
        0
    }
}

/// An offset as line and byte column, both counted from one.
pub open spec fn position_at(lines: Seq<LineSpan>, offset: usize) -> Position {
    let line = line_at(lines, offset as int);
    let start = if line < lines.len() {
        lines[line].start as int
    } else {
        0
    };
    Position {
        line: (line + 1) as usize,
        column: crate::sums::clipped(
            if offset > start {
                (offset - start + 1) as nat
            } else {
                1
            },
        ),
    }
}

/// Like `position_at`, but no further than the end of a line's text.
pub open spec fn end_position_at(lines: Seq<LineSpan>, offset: usize) -> Position {
    let line = line_at(lines, offset as int);
    if line < lines.len() && offset > lines[line].end {
        position_at(lines, lines[line].end)
    } else {
        position_at(lines, offset)
    }
}

/// Whether lines stand in order, one behind the other.
pub open spec fn lines_rise(lines: Seq<LineSpan>) -> bool {
    &&& forall|left: int, right: int|
        0 <= left < right < lines.len() ==> (#[trigger] lines[left]).start < (
        #[trigger] lines[right]).start
    &&& forall|index: int|
        0 <= index < lines.len() ==> (#[trigger] lines[index]).start <= lines[index].end
    &&& lines.len() > 0 ==> lines[0].start == 0
}

/// The lines of a source file.
#[derive(Clone, Debug)]
pub struct LineTable {
    pub lines: Vec<LineSpan>,
}

proof fn lemma_started_by(lines: Seq<LineSpan>, offset: int, split: nat, count: nat)
    requires
        split <= count <= lines.len(),
        forall|index: int| 0 <= index < split ==> (#[trigger] lines[index]).start <= offset,
        forall|index: int| split <= index < count ==> (#[trigger] lines[index]).start > offset,
    ensures
        started_by(lines, offset, count) == split,
    decreases count,
{
    if count > 0 {
        if split == count {
            lemma_started_by(lines, offset, (split - 1) as nat, (count - 1) as nat);
        } else {
            lemma_started_by(lines, offset, split, (count - 1) as nat);
        }
    }
}

impl LineTable {
    pub open spec fn well_formed(self) -> bool {
        lines_rise(self.lines@)
    }

    pub fn new(source: &str, carriage: bool) -> (table: LineTable)
        ensures
            table.well_formed(),
            table.lines@ == source_lines(encode_utf8(source@), carriage),
    {
        let bytes = source.as_bytes();
        let limit: usize = bytes.len();
        let mut lines: Vec<LineSpan> = Vec::new();
        let mut start: usize = 0;
        let mut index: usize = 0;
        assert(lines@ + source_lines(bytes@, carriage) =~= source_lines(bytes@, carriage));
        while index < limit
            invariant
                limit == bytes@.len(),
                start <= index <= limit,
                lines@.len() <= start,
                lines@ + lines_from(bytes@, index as int, start as int, carriage) == source_lines(
                    bytes@,
                    carriage,
                ),
                lines_rise(lines@),
                lines@.len() == 0 ==> start == 0,
                lines@.len() > 0 ==> lines@.last().start < start,
            decreases limit - index,
        {
            let length: usize = if bytes[index] == 0x0A {
                1
            } else if carriage && bytes[index] == 0x0D {
                if index + 1 < limit && bytes[index + 1] == 0x0A {
                    2
                } else {
                    1
                }
            } else {
                0
            };
            if length > 0 {
                let ghost held = lines@;
                let line = LineSpan { start, end: index };
                lines.push(line);
                assert(held + (seq![line] + lines_from(
                    bytes@,
                    index + length,
                    index + length,
                    carriage,
                )) =~= lines@ + lines_from(bytes@, index + length, index + length, carriage));
                index = index + length;
                start = index;
            } else {
                index += 1;
            }
        }
        if start < limit {
            let ghost held = lines@;
            let line = LineSpan { start, end: limit };
            lines.push(line);
            assert(lines@ =~= held + seq![line]);
        } else {
            assert(lines@ =~= lines@ + Seq::<LineSpan>::empty());
        }
        LineTable { lines }
    }

    pub fn line_index(&self, offset: usize) -> (line: usize)
        requires
            self.well_formed(),
        ensures
            line == line_at(self.lines@, offset as int),
            self.lines@.len() > 0 ==> line < self.lines@.len(),
            self.lines@.len() == 0 ==> line == 0,
            line < usize::MAX,
    {
        let mut low: usize = 0;
        let mut high: usize = self.lines.len();
        while low < high
            invariant
                self.well_formed(),
                low <= high <= self.lines@.len(),
                forall|index: int|
                    0 <= index < low ==> (#[trigger] self.lines@[index]).start <= offset,
                forall|index: int|
                    high <= index < self.lines@.len() ==> (#[trigger] self.lines@[index]).start
                        > offset,
            decreases high - low,
        {
            let middle: usize = low + (high - low) / 2;
            if self.lines[middle].start <= offset {
                low = middle + 1;
            } else {
                high = middle;
            }
        }
        proof {
            lemma_started_by(self.lines@, offset as int, low as nat, self.lines@.len());
        }
        if low > 0 {
            low - 1
        } else {
            0
        }
    }

    pub fn position(&self, offset: usize) -> (position: Position)
        requires
            self.well_formed(),
        ensures
            position == position_at(self.lines@, offset),
    {
        let line: usize = self.line_index(offset);
        let start: usize = if line < self.lines.len() {
            self.lines[line].start
        } else {
            0
        };
        let column: usize = if offset > start {
            (offset - start).saturating_add(1)
        } else {
            1
        };
        Position { line: line + 1, column }
    }

    pub fn end_position(&self, offset: usize) -> (position: Position)
        requires
            self.well_formed(),
        ensures
            position == end_position_at(self.lines@, offset),
    {
        let line: usize = self.line_index(offset);
        if line < self.lines.len() && offset > self.lines[line].end {
            return self.position(self.lines[line].end);
        }
        self.position(offset)
    }
}

/// A token by the bytes that it spans.
#[derive(Clone, Copy, Debug, PartialEq, Eq, Structural)]
pub struct TokenRange {
    pub start: usize,
    pub end: usize,
}

/// Whether a token lies within a range.
pub open spec fn token_within(token: TokenRange, start: int, end: int) -> bool {
    token.start >= start && token.end <= end
}

/// How many of the first `count` tokens lie within a range.
pub open spec fn tokens_within(
    tokens: Seq<TokenRange>,
    start: int,
    end: int,
    count: nat,
) -> nat
    decreases count,
{
    if count == 0 {
        0
    } else {
        tokens_within(tokens, start, end, (count - 1) as nat) + if token_within(
            tokens[count - 1],
            start,
            end,
        ) {
            1nat
        } else {
            0nat
        }
    }
}

pub fn count_tokens_in(tokens: &Vec<TokenRange>, start: usize, end: usize) -> (number: usize)
    ensures
        number == tokens_within(tokens@, start as int, end as int, tokens@.len()),
{
    let mut number: usize = 0;
    let mut index: usize = 0;
    while index < tokens.len()
        invariant
            index <= tokens@.len(),
            number <= index,
            number == tokens_within(tokens@, start as int, end as int, index as nat),
        decreases tokens@.len() - index,
    {
        if tokens[index].start >= start && tokens[index].end <= end {
            number += 1;
        }
        index += 1;
    }
    number
}

/// Whether two offsets cut a text between characters, in order.
pub open spec fn cuts(text: Seq<char>, start: int, end: int) -> bool {
    let bytes = encode_utf8(text);
    0 <= start <= end <= bytes.len() && is_char_boundary(bytes, start) && is_char_boundary(
        bytes,
        end,
    )
}

/// The text between two offsets; nothing where they do not cut it.
pub open spec fn text_between(text: Seq<char>, start: int, end: int) -> Seq<char> {
    if cuts(text, start, end) {
        decode_utf8(encode_utf8(text).subrange(start, end))
    } else {
        Seq::empty()
    }
}

/// A part of a text, where two offsets cut it.
pub fn cut<'a>(text: &'a str, start: usize, end: usize) -> (part: Option<&'a str>)
    ensures
        part is Some <==> cuts(text@, start as int, end as int),
        part matches Some(found) ==> found@ == text_between(text@, start as int, end as int),
{
    let length: usize = text.as_bytes().len();
    if start > end || end > length || !text.is_char_boundary(start) || !text.is_char_boundary(
        end,
    ) {
        return None;
    }
    let ghost bytes = encode_utf8(text@);
    proof {
        vstd::utf8::encode_utf8_valid_utf8(text@);
        vstd::utf8::valid_utf8_split(bytes, end as int);
        let front = bytes.subrange(0, end as int);
        if start < end {
            vstd::utf8::is_char_boundary_iff_not_is_continuation_byte(bytes, start as int);
            vstd::utf8::is_char_boundary_iff_not_is_continuation_byte(front, start as int);
            assert(front[start as int] == bytes[start as int]);
        } else {
            vstd::utf8::is_char_boundary_start_end_of_seq(front);
        }
    }
    let (front, _) = text.split_at(end);
    let (_, part) = front.split_at(start);
    proof {
        assert(encode_utf8(part@) =~= bytes.subrange(start as int, end as int));
        vstd::utf8::encode_utf8_decode_utf8(part@);
    }
    Some(part)
}

/// The texts of those of the first `count` tokens that lie within a range.
pub open spec fn token_texts(
    text: Seq<char>,
    tokens: Seq<TokenRange>,
    start: int,
    end: int,
    count: nat,
) -> Seq<Seq<char>>
    decreases count,
{
    if count == 0 {
        Seq::empty()
    } else {
        let earlier = token_texts(text, tokens, start, end, (count - 1) as nat);
        let token = tokens[count - 1];
        if token_within(token, start, end) && cuts(text, token.start as int, token.end as int) {
            earlier.push(text_between(text, token.start as int, token.end as int))
        } else {
            earlier
        }
    }
}

pub fn token_texts_in(
    text: &str,
    tokens: &Vec<TokenRange>,
    start: usize,
    end: usize,
) -> (result: Vec<String>)
    ensures
        texts(result@) == token_texts(
            text@,
            tokens@,
            start as int,
            end as int,
            tokens@.len(),
        ),
{
    let mut result: Vec<String> = Vec::new();
    let mut index: usize = 0;
    assert(texts(result@) =~= Seq::<Seq<char>>::empty());
    while index < tokens.len()
        invariant
            index <= tokens@.len(),
            texts(result@) == token_texts(
                text@,
                tokens@,
                start as int,
                end as int,
                index as nat,
            ),
        decreases tokens@.len() - index,
    {
        let token = tokens[index];
        let ghost held = texts(result@);
        if token.start >= start && token.end <= end {
            if let Some(part) = cut(text, token.start, token.end) {
                result.push(part.to_owned());
                assert(texts(result@) =~= held.push(part@));
            }
        }
        index += 1;
    }
    result
}

/// How many of the lines from `first` to `last` are marked.
pub open spec fn marked_between(marks: Seq<bool>, first: int, last: int) -> nat
    decreases last - first + 1,
{
    if first > last {
        0
    } else {
        marked_between(marks, first, last - 1) + if 0 <= last < marks.len() && marks[last] {
            1nat
        } else {
            0nat
        }
    }
}

/// The last line, counted from zero, that a range reaches.
pub open spec fn last_line(lines: Seq<LineSpan>, end: int) -> int {
    line_at(
        lines,
        if end > 0 {
            end - 1
        } else {
            0
        },
    )
}

/// How many marked lines a range touches.
pub open spec fn marked_lines(
    lines: Seq<LineSpan>,
    marks: Seq<bool>,
    start: int,
    end: int,
) -> nat {
    marked_between(marks, line_at(lines, start), last_line(lines, end))
}

pub fn count_marked_lines(
    table: &LineTable,
    marks: &Vec<bool>,
    start: usize,
    end: usize,
) -> (number: usize)
    requires
        table.well_formed(),
    ensures
        number == marked_lines(table.lines@, marks@, start as int, end as int),
{
    let first: usize = table.line_index(start);
    let before: usize = if end > 0 {
        end - 1
    } else {
        0
    };
    let last: usize = table.line_index(before);
    let mut number: usize = 0;
    if first > last {
        return 0;
    }
    let count: usize = table.lines.len();
    let mut line: usize = first;
    while line <= last
        invariant
            first <= line,
            line <= last + 1,
            last < usize::MAX,
            number <= line - first,
            number == marked_between(marks@, first as int, line - 1),
        decreases last + 1 - line,
    {
        if line < marks.len() && marks[line] {
            number += 1;
        }
        line += 1;
    }
    number
}

/// Whether a token of the first `count` touches a line.
pub open spec fn touched_by(
    lines: Seq<LineSpan>,
    tokens: Seq<TokenRange>,
    line: int,
    count: nat,
) -> bool {
    exists|index: int|
        0 <= index < count && (#[trigger] tokens[index]).start < tokens[index].end && line_at(
            lines,
            tokens[index].start as int,
        ) <= line <= last_line(lines, tokens[index].end as int)
}

/// Which lines tokens touch.
pub open spec fn touched_lines(lines: Seq<LineSpan>, tokens: Seq<TokenRange>) -> Seq<bool> {
    Seq::new(lines.len(), |line: int| touched_by(lines, tokens, line, tokens.len()))
}

/// Marks the lines that tokens touch.
pub fn mark_lines(table: &LineTable, tokens: &Vec<TokenRange>) -> (marks: Vec<bool>)
    requires
        table.well_formed(),
    ensures
        marks@ == touched_lines(table.lines@, tokens@),
{
    let mut marks: Vec<bool> = Vec::new();
    while marks.len() < table.lines.len()
        invariant
            marks@.len() <= table.lines@.len(),
            forall|line: int| 0 <= line < marks@.len() ==> !#[trigger] marks@[line],
        decreases table.lines@.len() - marks@.len(),
    {
        marks.push(false);
    }
    let mut index: usize = 0;
    while index < tokens.len()
        invariant
            index <= tokens@.len(),
            table.well_formed(),
            marks@.len() == table.lines@.len(),
            forall|line: int|
                0 <= line < marks@.len() ==> (#[trigger] marks@[line] <==> touched_by(
                    table.lines@,
                    tokens@,
                    line,
                    index as nat,
                )),
        decreases tokens@.len() - index,
    {
        let token = tokens[index];
        let ghost held = marks@;
        if token.start < token.end {
            let first: usize = table.line_index(token.start);
            let last: usize = table.line_index(token.end - 1);
            let mut line: usize = first;
            while line <= last && line < marks.len()
                invariant
                    first <= line,
                    marks@.len() == table.lines@.len(),
                    held.len() == marks@.len(),
                    forall|place: int|
                        0 <= place < marks@.len() ==> (#[trigger] marks@[place] <==> held[place] || (
                        first <= place < line && place <= last)),
                decreases marks@.len() - line,
            {
                marks.set(line, true);
                line += 1;
            }
            proof {
                assert forall|place: int| 0 <= place < marks@.len() implies (#[trigger] marks@[place]
                    <==> touched_by(table.lines@, tokens@, place, (index + 1) as nat)) by {
                    assert(held[place] <==> touched_by(
                        table.lines@,
                        tokens@,
                        place,
                        index as nat,
                    ));
                    if marks@[place] && !held[place] {
                        assert(tokens@[index as int].start < tokens@[index as int].end);
                    }
                }
            }
        } else {
            assert forall|place: int| 0 <= place < marks@.len() implies (#[trigger] marks@[place]
                <==> touched_by(table.lines@, tokens@, place, (index + 1) as nat)) by {
                assert(held[place] <==> touched_by(table.lines@, tokens@, place, index as nat));
            }
        }
        index += 1;
    }
    assert(marks@ =~= touched_lines(table.lines@, tokens@));
    marks
}

/// A token of the source: the lexer's name for what it is, and its bytes.
#[derive(Debug)]
pub struct SourceToken {
    pub kind: String,
    pub start: usize,
    pub end: usize,
}

/// The bytes of a token.
pub open spec fn token_range(token: SourceToken) -> TokenRange {
    TokenRange { start: token.start, end: token.end }
}

}
