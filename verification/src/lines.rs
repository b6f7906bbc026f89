//! The physical lines of Rust source: code, comment or blank.
use vstd::prelude::*;
use vstd::utf8::encode_utf8;
use crate::identity::{hash_count, is_layout, layout_byte, opens_with, opens_with_pair};
use crate::model::LineCounts;
use crate::tokens::{
    char_literal, has_hashes, looks_like_char_literal, raw_opening, raw_string_delimiter,
};

verus! {

#[derive(Clone, Debug, Default)]
pub struct LineAnalysis {
    pub counts: LineCounts,
    /// How many code lines stand before each line, and in all.
    pub code_prefix: Vec<usize>,
}

/// What the classification of lines is in the middle of.
#[derive(Clone, Copy, Debug, PartialEq, Eq, Structural)]
pub enum LexicalState {
    Normal,
    LineComment,
    BlockComment(usize),
    Quoted { delimiter: u8, escaped: bool },
    RawString { hashes: usize },
}

#[derive(Clone, Copy, Debug, PartialEq, Eq, Structural)]
pub enum LineKind {
    Blank,
    Comment,
    Code,
}

/// The kind of a line once a comment was met on it.
pub open spec fn with_comment(kind: LineKind) -> LineKind {
    match kind {
        LineKind::Code => LineKind::Code,
        _ => LineKind::Comment,
    }
}

fn mark_comment(kind: LineKind) -> (marked: LineKind)
    ensures
        marked == with_comment(kind),
{
    match kind {
        LineKind::Code => LineKind::Code,
        LineKind::Blank | LineKind::Comment => LineKind::Comment,
    }
}

/// One step: where it goes on, in what state, the kind of the line by then,
/// and whether the line ends.
pub struct LineStep {
    pub next: int,
    pub state: LexicalState,
    pub kind: LineKind,
    pub ends: bool,
}

/// A step outside comments and literals.
pub open spec fn normal_step(bytes: Seq<u8>, index: int, kind: LineKind) -> LineStep {
    let rest = bytes.skip(index);
    let normal = LexicalState::Normal;
    if bytes[index] == 0x0A {
        LineStep { next: index + 1, state: normal, kind, ends: true }
    } else if raw_opening(bytes, index) is Some {
        let opening = raw_opening(bytes, index)->Some_0;
        LineStep {
            next: index + opening.0,
            state: LexicalState::RawString { hashes: opening.1 as usize },
            kind: LineKind::Code,
            ends: false,
        }
    } else if bytes[index] == 0x22 || char_literal(bytes, index) {
        LineStep {
            next: index + 1,
            state: LexicalState::Quoted { delimiter: bytes[index], escaped: false },
            kind: LineKind::Code,
            ends: false,
        }
    } else if opens_with(rest, seq![0x2F, 0x2A]) {
        LineStep {
            next: index + 2,
            state: LexicalState::BlockComment(1),
            kind: with_comment(kind),
            ends: false,
        }
    } else if opens_with(rest, seq![0x2F, 0x2F]) {
        LineStep {
            next: index + 2,
            state: LexicalState::LineComment,
            kind: with_comment(kind),
            ends: false,
        }
    } else {
        LineStep {
            next: index + 1,
            state: normal,
            kind: if layout_byte(bytes[index]) {
                kind
            } else {
                LineKind::Code
            },
            ends: false,
        }
    }
}

/// A step in any state.
pub open spec fn line_step(
    bytes: Seq<u8>,
    index: int,
    state: LexicalState,
    kind: LineKind,
) -> LineStep {
    let rest = bytes.skip(index);
    let ends = bytes[index] == 0x0A;
    match state {
        LexicalState::Normal => normal_step(bytes, index, kind),
        LexicalState::LineComment => LineStep {
            next: index + 1,
            state: if ends {
                LexicalState::Normal
            } else {
                state
            },
            kind,
            ends,
        },
        LexicalState::BlockComment(depth) => if opens_with(rest, seq![0x2F, 0x2A]) {
            LineStep {
                next: index + 2,
                state: LexicalState::BlockComment(
                    if depth < usize::MAX {
                        (depth + 1) as usize
                    } else {
                        depth
                    },
                ),
                kind: with_comment(kind),
                ends: false,
            }
        } else if opens_with(rest, seq![0x2A, 0x2F]) {
            LineStep {
                next: index + 2,
                state: if depth <= 1 {
                    LexicalState::Normal
                } else {
                    LexicalState::BlockComment((depth - 1) as usize)
                },
                kind: with_comment(kind),
                ends: false,
            }
        } else {
            LineStep { next: index + 1, state, kind: with_comment(kind), ends }
        },
        LexicalState::Quoted { delimiter, escaped } => LineStep {
            next: index + 1,
            state: if escaped {
                LexicalState::Quoted { delimiter, escaped: false }
            } else if bytes[index] == 0x5C {
                LexicalState::Quoted { delimiter, escaped: true }
            } else if bytes[index] == delimiter {
                LexicalState::Normal
            } else {
                state
            },
            kind: LineKind::Code,
            ends,
        },
        LexicalState::RawString { hashes } => if bytes[index] == 0x22 && hash_count(
            bytes.skip(index + 1),
        ) >= hashes {
            LineStep {
                next: index + hashes + 1,
                state: LexicalState::Normal,
                kind: LineKind::Code,
                ends: false,
            }
        } else {
            LineStep { next: index + 1, state, kind: LineKind::Code, ends }
        },
    }
}

/// The kinds of the lines that end from a place on. The last line ends with
/// the source where no line break ends it.
pub open spec fn kinds_from(
    bytes: Seq<u8>,
    index: int,
    state: LexicalState,
    kind: LineKind,
) -> Seq<LineKind>
    decreases bytes.len() - index,
{
    let step = line_step(bytes, index, state, kind);
    if index < 0 || index >= bytes.len() || step.next <= index || step.next > bytes.len() {
        if bytes.len() > 0 && bytes.last() != 0x0A {
            seq![kind]
        } else {
            Seq::empty()
        }
    } else if step.ends {
        seq![step.kind] + kinds_from(bytes, step.next, step.state, LineKind::Blank)
    } else {
        kinds_from(bytes, step.next, step.state, step.kind)
    }
}

/// The kinds of all lines of source.
pub open spec fn line_kinds(bytes: Seq<u8>) -> Seq<LineKind> {
    kinds_from(bytes, 0, LexicalState::Normal, LineKind::Blank)
}

/// How many of the first `count` lines are of a kind.
pub open spec fn kind_count(kinds: Seq<LineKind>, kind: LineKind, count: nat) -> nat
    decreases count,
{
    if count == 0 {
        0
    } else {
        kind_count(kinds, kind, (count - 1) as nat) + if kinds[count - 1] == kind {
            1nat
        } else {
            0nat
        }
    }
}

impl LineAnalysis {
    /// Whether the analysis counts lines of these kinds.
    pub open spec fn describes(self, kinds: Seq<LineKind>) -> bool {
        &&& self.counts.total == kinds.len()
        &&& self.counts.code == kind_count(kinds, LineKind::Code, kinds.len())
        &&& self.counts.comments == kind_count(kinds, LineKind::Comment, kinds.len())
        &&& self.counts.blank == kind_count(kinds, LineKind::Blank, kinds.len())
        &&& self.code_prefix@.len() == kinds.len() + 1
        &&& forall|line: int|
            0 <= line <= kinds.len() ==> #[trigger] self.code_prefix@[line] == kind_count(
                kinds,
                LineKind::Code,
                line as nat,
            )
    }

    /// How many code lines there are from one line to another, both counted
    /// from one and within the source.
    pub open spec fn code_lines_between(self, start_line: usize, end_line: usize) -> int {
        if self.code_prefix@.len() == 0 {
            0
        } else {
            let last = self.code_prefix@.len() - 1;
            let before = if start_line == 0 {
                0
            } else {
                start_line - 1
            };
            let start = if before < last {
                before
            } else {
                last
            };
            let end = if end_line < last {
                end_line as int
            } else {
                last
            };
            if end < start || self.code_prefix@[end] < self.code_prefix@[start] {
                0
            } else {
                self.code_prefix@[end] - self.code_prefix@[start]
            }
        }
    }

    pub fn code_lines_in_range(&self, start_line: usize, end_line: usize) -> (count: usize)
        ensures
            count == self.code_lines_between(start_line, end_line),
    {
        if self.code_prefix.len() == 0 {
            return 0;
        }
        let last: usize = self.code_prefix.len() - 1;
        let before: usize = if start_line == 0 {
            0
        } else {
            start_line - 1
        };
        let start: usize = if before < last {
            before
        } else {
            last
        };
        let end: usize = if end_line < last {
            end_line
        } else {
            last
        };
        if end < start || self.code_prefix[end] < self.code_prefix[start] {
            0
        } else {
            self.code_prefix[end] - self.code_prefix[start]
        }
    }
}

fn step_normal(bytes: &[u8], index: usize, kind: LineKind) -> (step: (
    usize,
    LexicalState,
    LineKind,
    bool,
))
    requires
        index < bytes@.len(),
    ensures
        (LineStep { next: step.0 as int, state: step.1, kind: step.2, ends: step.3 })
            == normal_step(bytes@, index as int, kind),
        index < step.0 <= bytes@.len(),
{
    let limit: usize = bytes.len();
    let byte: u8 = bytes[index];
    if byte == 0x0A {
        return (index + 1, LexicalState::Normal, kind, true);
    }
    if let Some((length, hashes)) = raw_string_delimiter(bytes, index) {
        return (index + length, LexicalState::RawString { hashes }, LineKind::Code, false);
    }
    if byte == 0x22 || (byte == 0x27 && looks_like_char_literal(bytes, index)) {
        return (
            index + 1,
            LexicalState::Quoted { delimiter: byte, escaped: false },
            LineKind::Code,
            false,
        );
    }
    if opens_with_pair(bytes, index, 0x2F, 0x2A) {
        return (index + 2, LexicalState::BlockComment(1), mark_comment(kind), false);
    }
    if opens_with_pair(bytes, index, 0x2F, 0x2F) {
        return (index + 2, LexicalState::LineComment, mark_comment(kind), false);
    }
    let marked = if is_layout(byte) {
        kind
    } else {
        LineKind::Code
    };
    (index + 1, LexicalState::Normal, marked, false)
}

fn step_block_comment(bytes: &[u8], index: usize, depth: usize, kind: LineKind) -> (step: (
    usize,
    LexicalState,
    LineKind,
    bool,
))
    requires
        index < bytes@.len(),
    ensures
        (LineStep { next: step.0 as int, state: step.1, kind: step.2, ends: step.3 }) == line_step(
            bytes@,
            index as int,
            LexicalState::BlockComment(depth),
            kind,
        ),
        index < step.0 <= bytes@.len(),
{
    let limit: usize = bytes.len();
    let marked = mark_comment(kind);
    if opens_with_pair(bytes, index, 0x2F, 0x2A) {
        let deeper: usize = if depth < usize::MAX {
            depth + 1
        } else {
            depth
        };
        return (index + 2, LexicalState::BlockComment(deeper), marked, false);
    }
    if opens_with_pair(bytes, index, 0x2A, 0x2F) {
        let state = if depth <= 1 {
            LexicalState::Normal
        } else {
            LexicalState::BlockComment(depth - 1)
        };
        return (index + 2, state, marked, false);
    }
    (index + 1, LexicalState::BlockComment(depth), marked, bytes[index] == 0x0A)
}

fn step_line(bytes: &[u8], index: usize, state: LexicalState, kind: LineKind) -> (step: (
    usize,
    LexicalState,
    LineKind,
    bool,
))
    requires
        index < bytes@.len(),
    ensures
        (LineStep { next: step.0 as int, state: step.1, kind: step.2, ends: step.3 }) == line_step(
            bytes@,
            index as int,
            state,
            kind,
        ),
        index < step.0 <= bytes@.len(),
{
    let limit: usize = bytes.len();
    let byte: u8 = bytes[index];
    let ends: bool = byte == 0x0A;
    match state {
        LexicalState::Normal => step_normal(bytes, index, kind),
        LexicalState::LineComment => {
            let next = if ends {
                LexicalState::Normal
            } else {
                state
            };
            (index + 1, next, kind, ends)
        },
        LexicalState::BlockComment(depth) => step_block_comment(bytes, index, depth, kind),
        LexicalState::Quoted { delimiter, escaped } => {
            let next = if escaped {
                LexicalState::Quoted { delimiter, escaped: false }
            } else if byte == 0x5C {
                LexicalState::Quoted { delimiter, escaped: true }
            } else if byte == delimiter {
                LexicalState::Normal
            } else {
                state
            };
            (index + 1, next, LineKind::Code, ends)
        },
        LexicalState::RawString { hashes } => {
            if byte == 0x22 && has_hashes(bytes, index + 1, hashes) {
                (index + 1 + hashes, LexicalState::Normal, LineKind::Code, false)
            } else {
                (index + 1, state, LineKind::Code, ends)
            }
        },
    }
}

proof fn lemma_kind_count_prefix(
    shorter: Seq<LineKind>,
    longer: Seq<LineKind>,
    kind: LineKind,
    count: nat,
)
    requires
        count <= shorter.len(),
        count <= longer.len(),
        forall|line: int| 0 <= line < count ==> shorter[line] == longer[line],
    ensures
        kind_count(shorter, kind, count) == kind_count(longer, kind, count),
    decreases count,
{
    if count > 0 {
        lemma_kind_count_prefix(shorter, longer, kind, (count - 1) as nat);
    }
}

impl LineAnalysis {
    fn finish_line(&mut self, kind: LineKind, Ghost(kinds): Ghost<Seq<LineKind>>)
        requires
            old(self).describes(kinds),
            kinds.len() < usize::MAX,
        ensures
            final(self).describes(kinds.push(kind)),
    {
        proof {
            let longer = kinds.push(kind);
            lemma_kind_count_prefix(kinds, longer, LineKind::Code, kinds.len());
            lemma_kind_count_prefix(kinds, longer, LineKind::Comment, kinds.len());
            lemma_kind_count_prefix(kinds, longer, LineKind::Blank, kinds.len());
            lemma_kinds_bounded(kinds, kinds.len());
            assert forall|line: nat| line <= kinds.len() implies #[trigger] kind_count(
                kinds,
                LineKind::Code,
                line,
            ) == kind_count(longer, LineKind::Code, line) by {
                lemma_kind_count_prefix(kinds, longer, LineKind::Code, line);
            }
            assert(self.code_prefix@[kinds.len() as int] == kind_count(
                kinds,
                LineKind::Code,
                kinds.len(),
            ));
        }
        self.counts.total = self.counts.total + 1;
        let previous: usize = self.code_prefix[self.code_prefix.len() - 1];
        match kind {
            LineKind::Code => {
                self.counts.code = self.counts.code + 1;
                self.code_prefix.push(previous + 1);
            },
            LineKind::Comment => {
                self.counts.comments = self.counts.comments + 1;
                self.code_prefix.push(previous);
            },
            LineKind::Blank => {
                self.counts.blank = self.counts.blank + 1;
                self.code_prefix.push(previous);
            },
        }
    }
}

proof fn lemma_kinds_bounded(kinds: Seq<LineKind>, count: nat)
    ensures
        kind_count(kinds, LineKind::Code, count) + kind_count(kinds, LineKind::Comment, count)
            + kind_count(kinds, LineKind::Blank, count) == count,
    decreases count,
{
    if count > 0 {
        lemma_kinds_bounded(kinds, (count - 1) as nat);
    }
}

/// Every line is code, comment or blank, and only one of these.
pub proof fn line_counts_add_up(analysis: LineAnalysis, kinds: Seq<LineKind>)
    requires
        analysis.describes(kinds),
    ensures
        analysis.counts.code + analysis.counts.comments + analysis.counts.blank
            == analysis.counts.total,
{
    lemma_kinds_bounded(kinds, kinds.len());
}

/// Classify each physical source line in one lexical pass. A line containing
/// any code wins over a line comment, while comment-only and whitespace-only
/// lines remain distinct. The prefix table makes each function's code-line
/// lookup constant time after this file-level pass.
pub fn classify_lines(source: &str) -> (analysis: LineAnalysis)
    ensures
        analysis.describes(line_kinds(encode_utf8(source@))),
{
    let bytes = source.as_bytes();
    let limit: usize = bytes.len();
    let mut code_prefix: Vec<usize> = Vec::new();
    code_prefix.push(0);
    let mut analysis = LineAnalysis {
        counts: LineCounts { total: 0, code: 0, comments: 0, blank: 0 },
        code_prefix,
    };
    let ghost mut kinds = Seq::<LineKind>::empty();
    let mut index: usize = 0;
    let mut state = LexicalState::Normal;
    let mut kind = LineKind::Blank;
    assert(kinds + line_kinds(bytes@) =~= line_kinds(bytes@));
    while index < limit
        invariant
            limit == bytes@.len(),
            index <= limit,
            kinds.len() <= index,
            analysis.describes(kinds),
            kinds + kinds_from(bytes@, index as int, state, kind) == line_kinds(bytes@),
            index == limit && limit > 0 && bytes@.last() != 0x0A ==> kinds.len() < limit,
        decreases limit - index,
    {
        let (next, next_state, next_kind, ends) = step_line(bytes, index, state, kind);
        let ghost rest = kinds_from(bytes@, index as int, state, kind);
        if ends {
            analysis.finish_line(next_kind, Ghost(kinds));
            proof {
                let later = kinds_from(bytes@, next as int, next_state, LineKind::Blank);
                assert(kinds.push(next_kind) + later =~= kinds + rest);
                kinds = kinds.push(next_kind);
                lemma_ending_step(bytes@, index as int, state, kind);
            }
            kind = LineKind::Blank;
        } else {
            kind = next_kind;
        }
        index = next;
        state = next_state;
    }
    if limit > 0 && bytes[limit - 1] != 0x0A {
        analysis.finish_line(kind, Ghost(kinds));
        assert(kinds.push(kind) =~= line_kinds(bytes@));
    } else {
        assert(kinds =~= line_kinds(bytes@));
    }
    analysis
}

proof fn lemma_ending_step(bytes: Seq<u8>, index: int, state: LexicalState, kind: LineKind)
    requires
        0 <= index < bytes.len(),
    ensures
        line_step(bytes, index, state, kind).ends ==> bytes[index] == 0x0A && line_step(
            bytes,
            index,
            state,
            kind,
        ).next == index + 1,
{
}

/// How many line breaks stand from a place on, before another.
pub open spec fn breaks_between(bytes: Seq<u8>, start: int, end: int) -> nat
    decreases end - start,
{
    if start >= end {
        0
    } else {
        breaks_between(bytes, start, end - 1) + if bytes[end - 1] == 0x0A {
            1nat
        } else {
            0nat
        }
    }
}

proof fn lemma_breaks_split(bytes: Seq<u8>, start: int, middle: int, end: int)
    requires
        start <= middle <= end,
    ensures
        breaks_between(bytes, start, end) == breaks_between(bytes, start, middle)
            + breaks_between(bytes, middle, end),
    decreases end - middle,
{
    if middle < end {
        lemma_breaks_split(bytes, start, middle, end - 1);
    }
}

proof fn lemma_no_breaks(bytes: Seq<u8>, start: int, end: int)
    requires
        forall|place: int| start <= place < end ==> #[trigger] bytes[place] != 0x0A,
    ensures
        breaks_between(bytes, start, end) == 0,
    decreases end - start,
{
    if start < end {
        lemma_no_breaks(bytes, start, end - 1);
    }
}

proof fn lemma_hash_bytes(bytes: Seq<u8>, start: int, count: nat)
    requires
        0 <= start <= bytes.len(),
        hash_count(bytes.skip(start)) >= count,
    ensures
        start + count <= bytes.len(),
        forall|place: int| start <= place < start + count ==> #[trigger] bytes[place] == 0x23,
    decreases count,
{
    if count > 0 {
        assert(bytes.skip(start)[0] == bytes[start]);
        assert(bytes.skip(start).skip(1) =~= bytes.skip(start + 1));
        lemma_hash_bytes(bytes, start + 1, (count - 1) as nat);
    }
}

proof fn lemma_step_breaks(bytes: Seq<u8>, index: int, state: LexicalState, kind: LineKind)
    requires
        0 <= index < bytes.len(),
    ensures
        ({
            let step = line_step(bytes, index, state, kind);
            &&& index < step.next <= bytes.len()
            &&& breaks_between(bytes, index, step.next) == if step.ends {
                1nat
            } else {
                0nat
            }
        }),
{
    let step = line_step(bytes, index, state, kind);
    let rest = bytes.skip(index);
    if rest.len() >= 2 {
        assert(rest.take(2)[0] == bytes[index]);
        assert(rest.take(2)[1] == bytes[index + 1]);
    }
    if opens_with(rest, seq![0x2F, 0x2A]) {
        assert(rest.take(2)[0] == 0x2F && rest.take(2)[1] == 0x2A);
    }
    if opens_with(rest, seq![0x2A, 0x2F]) {
        assert(rest.take(2)[0] == 0x2A && rest.take(2)[1] == 0x2F);
    }
    if opens_with(rest, seq![0x2F, 0x2F]) {
        assert(rest.take(2)[0] == 0x2F && rest.take(2)[1] == 0x2F);
    }
    if raw_opening(bytes, index) is Some {
        let opening = raw_opening(bytes, index)->Some_0;
        let prefix = opening.0 - opening.1 - 1;
        lemma_hash_bytes(bytes, index + prefix, opening.1);
    }
    match state {
        LexicalState::RawString { hashes } => {
            if bytes[index] == 0x22 && hash_count(bytes.skip(index + 1)) >= hashes {
                lemma_hash_bytes(bytes, index + 1, hashes as nat);
            }
        },
        _ => {},
    }
    if step.ends {
        lemma_ending_step(bytes, index, state, kind);
        assert(breaks_between(bytes, index, index) == 0);
    } else {
        assert forall|place: int| index <= place < step.next implies #[trigger] bytes[place]
            != 0x0A by {}
        lemma_no_breaks(bytes, index, step.next);
    }
}

proof fn lemma_lines_from(bytes: Seq<u8>, index: int, state: LexicalState, kind: LineKind)
    requires
        0 <= index <= bytes.len(),
    ensures
        kinds_from(bytes, index, state, kind).len() == breaks_between(
            bytes,
            index,
            bytes.len() as int,
        ) + if bytes.len() > 0 && bytes.last() != 0x0A {
            1nat
        } else {
            0nat
        },
    decreases bytes.len() - index,
{
    if index < bytes.len() {
        lemma_step_breaks(bytes, index, state, kind);
        let step = line_step(bytes, index, state, kind);
        lemma_breaks_split(bytes, index, step.next, bytes.len() as int);
        if step.ends {
            lemma_lines_from(bytes, step.next, step.state, LineKind::Blank);
        } else {
            lemma_lines_from(bytes, step.next, step.state, step.kind);
        }
    }
}

/// Every physical line is classified once: as many as there are line breaks,
/// and one more where the last line has none.
pub proof fn every_line_is_classified(bytes: Seq<u8>)
    ensures
        line_kinds(bytes).len() == breaks_between(bytes, 0, bytes.len() as int) + if bytes.len() > 0
            && bytes.last() != 0x0A {
            1nat
        } else {
            0nat
        },
{
    lemma_lines_from(bytes, 0, LexicalState::Normal, LineKind::Blank);
}

/// How many of the lines from one to another are code.
pub open spec fn code_between(kinds: Seq<LineKind>, start: int, end: int) -> nat
    decreases end - start,
{
    if start >= end {
        0
    } else {
        code_between(kinds, start, end - 1) + if kinds[end - 1] == LineKind::Code {
            1nat
        } else {
            0nat
        }
    }
}

proof fn lemma_code_between(kinds: Seq<LineKind>, start: int, end: int)
    requires
        0 <= start <= end,
    ensures
        kind_count(kinds, LineKind::Code, end as nat) == kind_count(
            kinds,
            LineKind::Code,
            start as nat,
        ) + code_between(kinds, start, end),
    decreases end - start,
{
    if start < end {
        lemma_code_between(kinds, start, end - 1);
    }
}

/// The prefix table gives the number of code lines of every range of lines.
pub proof fn ranges_count_code_lines(
    analysis: LineAnalysis,
    kinds: Seq<LineKind>,
    start_line: usize,
    end_line: usize,
)
    requires
        analysis.describes(kinds),
        1 <= start_line <= end_line <= kinds.len(),
    ensures
        analysis.code_lines_between(start_line, end_line) == code_between(
            kinds,
            start_line - 1,
            end_line as int,
        ),
{
    lemma_code_between(kinds, start_line - 1, end_line as int);
    assert(analysis.code_prefix@[start_line - 1] == kind_count(
        kinds,
        LineKind::Code,
        (start_line - 1) as nat,
    ));
    assert(analysis.code_prefix@[end_line as int] == kind_count(
        kinds,
        LineKind::Code,
        end_line as nat,
    ));
}

}
