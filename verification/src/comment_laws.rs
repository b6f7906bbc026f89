//! Where comments are in source, and what they make of its lines.
use vstd::prelude::*;
use crate::identity::{hash_count, layout_byte, opens_with};
use crate::javascript::{block_comment_end, comment_opens, comments_from, line_comment_end};
use crate::lines::{kinds_from, LexicalState, LineKind};
use crate::spans::TokenRange;
use crate::tokens::{byte_at, raw_opening};

verus! {

/// Whether a byte of a script opens neither a comment nor a literal.
pub open spec fn quiet(byte: u8) -> bool {
    byte != 0x2F && byte != 0x27 && byte != 0x22 && byte != 0x60
}

/// Bytes of a script that open neither a comment nor a literal are passed over.
pub proof fn quiet_script_holds_no_comment(bytes: Seq<u8>, start: int, end: int)
    requires
        0 <= start <= end <= bytes.len(),
        forall|index: int| start <= index < end ==> quiet(#[trigger] bytes[index]),
    ensures
        comments_from(bytes, start, None) == comments_from(bytes, end, None),
    decreases end - start,
{
    if start < end {
        assert(quiet(bytes[start]));
        quiet_script_holds_no_comment(bytes, start + 1, end);
    }
}

proof fn lemma_line_comment(bytes: Seq<u8>, start: int, end: int)
    requires
        0 <= start <= end <= bytes.len(),
        forall|index: int|
            start <= index < end ==> #[trigger] bytes[index] != 0x0A && bytes[index] != 0x0D,
        end == bytes.len() || bytes[end] == 0x0A || bytes[end] == 0x0D,
    ensures
        line_comment_end(bytes, start) == end,
    decreases end - start,
{
    if start < end {
        lemma_line_comment(bytes, start + 1, end);
    }
}

/// Two slashes in a script start a comment that goes on to the end of the line.
pub proof fn slashes_comment_a_line_out(bytes: Seq<u8>, start: int, end: int)
    requires
        0 <= start,
        start + 2 <= end <= bytes.len() <= usize::MAX,
        bytes[start] == 0x2F,
        bytes[start + 1] == 0x2F,
        forall|index: int|
            start <= index < end ==> #[trigger] bytes[index] != 0x0A && bytes[index] != 0x0D,
        end == bytes.len() || bytes[end] == 0x0A || bytes[end] == 0x0D,
    ensures
        comments_from(bytes, start, None) == seq![
            TokenRange { start: start as usize, end: end as usize },
        ] + comments_from(bytes, end, None),
{
    lemma_line_comment(bytes, start, end);
}

proof fn lemma_block_comment(bytes: Seq<u8>, start: int, end: int)
    requires
        0 <= start <= end,
        end + 1 < bytes.len(),
        forall|index: int|
            start <= index < end ==> !(#[trigger] bytes[index] == 0x2A && bytes[index + 1] == 0x2F),
        bytes[end] == 0x2A,
        bytes[end + 1] == 0x2F,
    ensures
        block_comment_end(bytes, start) == end + 2,
    decreases end - start,
{
    if start < end {
        assert(!(bytes[start] == 0x2A && bytes[start + 1] == 0x2F));
        lemma_block_comment(bytes, start + 1, end);
    }
}

/// A slash and a star in a script start a comment that goes on behind the next star
/// and slash.
pub proof fn stars_comment_a_block_out(bytes: Seq<u8>, start: int, end: int)
    requires
        0 <= start,
        start + 2 <= end,
        end + 1 < bytes.len() <= usize::MAX,
        bytes[start] == 0x2F,
        bytes[start + 1] == 0x2A,
        forall|index: int|
            start + 2 <= index < end ==> !(#[trigger] bytes[index] == 0x2A && bytes[index + 1]
                == 0x2F),
        bytes[end] == 0x2A,
        bytes[end + 1] == 0x2F,
    ensures
        comments_from(bytes, start, None) == seq![
            TokenRange { start: start as usize, end: (end + 2) as usize },
        ] + comments_from(bytes, end + 2, None),
{
    lemma_block_comment(bytes, start + 2, end);
    assert(comment_opens(bytes, start, 0x2A));
    assert(!comment_opens(bytes, start, 0x2F));
}

proof fn lemma_literal(bytes: Seq<u8>, start: int, end: int, mark: u8)
    requires
        0 <= start <= end < bytes.len(),
        mark != 0x5C,
        forall|index: int|
            start <= index < end ==> #[trigger] bytes[index] != mark && bytes[index] != 0x5C,
        bytes[end] == mark,
    ensures
        comments_from(bytes, start, Some(mark)) == comments_from(bytes, end + 1, None),
    decreases end - start,
{
    if start < end {
        lemma_literal(bytes, start + 1, end, mark);
    }
}

/// What a literal of a script holds is no comment.
pub proof fn literals_hold_no_comment(bytes: Seq<u8>, start: int, end: int)
    requires
        0 <= start < end < bytes.len(),
        bytes[start] == 0x27 || bytes[start] == 0x22 || bytes[start] == 0x60,
        bytes[end] == bytes[start],
        forall|index: int|
            start < index < end ==> #[trigger] bytes[index] != bytes[start] && bytes[index]
                != 0x5C,
    ensures
        comments_from(bytes, start, None) == comments_from(bytes, end + 1, None),
{
    lemma_literal(bytes, start + 1, end, bytes[start]);
}

/// Whether a byte of Rust source opens neither a comment nor a literal and ends no line.
pub open spec fn ordinary(byte: u8) -> bool {
    byte != 0x2F && byte != 0x27 && byte != 0x22 && byte != 0x0A
}

/// The kind of a line that bytes stand on which open neither a comment nor a literal.
pub open spec fn with_bytes(bytes: Seq<u8>, start: int, end: int, kind: LineKind) -> LineKind {
    if exists|index: int|
        start <= index < end && #[trigger] bytes[index] != 0x20 && bytes[index] != 0x09
            && bytes[index] != 0x0C && bytes[index] != 0x0D {
        LineKind::Code
    } else {
        kind
    }
}

proof fn lemma_hashes(rest: Seq<u8>, quote: int)
    requires
        hash_count(rest) == quote,
    ensures
        quote <= rest.len(),
        forall|index: int| 0 <= index < quote ==> #[trigger] rest[index] == 0x23,
    decreases rest.len(),
{
    if rest.len() > 0 && rest[0] == 0x23 {
        lemma_hashes(rest.skip(1), quote - 1);
        assert forall|index: int| 0 <= index < quote implies #[trigger] rest[index] == 0x23 by {
            if index > 0 {
                assert(rest.skip(1)[index - 1] == rest[index]);
            }
        }
    }
}

proof fn lemma_no_raw(bytes: Seq<u8>, start: int, end: int)
    requires
        0 <= start < end <= bytes.len(),
        forall|index: int| start <= index < end ==> ordinary(#[trigger] bytes[index]),
        end == bytes.len() || bytes[end] == 0x0A || bytes[end] == 0x2F,
    ensures
        raw_opening(bytes, start) is None,
{
    assert(ordinary(bytes[start]));
    let prefix = if bytes[start] == 0x72 {
        1int
    } else {
        2int
    };
    if start + prefix <= bytes.len() {
        let rest = bytes.skip(start + prefix);
        let hashes = hash_count(rest);
        lemma_hashes(rest, hashes as int);
        let quote = start + prefix + hashes;
        if raw_opening(bytes, start) is Some {
            assert(byte_at(bytes, quote) == Some(0x22u8));
            if quote >= end {
                if end < start + prefix {
                    assert(bytes[start + 1] == 0x72);
                } else if end < quote {
                    assert(rest[end - start - prefix] == bytes[end]);
                }
            } else {
                assert(ordinary(bytes[quote]));
            }
        }
    }
}

/// Bytes of Rust source that open neither a comment nor a literal make their line code,
/// unless they are all white space.
pub proof fn ordinary_bytes_are_code(bytes: Seq<u8>, start: int, end: int, kind: LineKind)
    requires
        0 <= start <= end <= bytes.len(),
        forall|index: int| start <= index < end ==> ordinary(#[trigger] bytes[index]),
        end == bytes.len() || bytes[end] == 0x0A || bytes[end] == 0x2F,
    ensures
        kinds_from(bytes, start, LexicalState::Normal, kind) == kinds_from(
            bytes,
            end,
            LexicalState::Normal,
            with_bytes(bytes, start, end, kind),
        ),
    decreases end - start,
{
    if start < end {
        assert(ordinary(bytes[start]));
        lemma_no_raw(bytes, start, end);
        let next = if layout_byte(bytes[start]) {
            kind
        } else {
            LineKind::Code
        };
        let rest = bytes.skip(start);
        assert(rest[0] == bytes[start]);
        assert(!opens_with(rest, seq![0x2F, 0x2A])) by {
            if opens_with(rest, seq![0x2F, 0x2A]) {
                assert(rest.take(2)[0] == 0x2F);
            }
        }
        assert(!opens_with(rest, seq![0x2F, 0x2F])) by {
            if opens_with(rest, seq![0x2F, 0x2F]) {
                assert(rest.take(2)[0] == 0x2F);
            }
        }
        assert(kinds_from(bytes, start, LexicalState::Normal, kind) == kinds_from(
            bytes,
            start + 1,
            LexicalState::Normal,
            next,
        ));
        ordinary_bytes_are_code(bytes, start + 1, end, next);
        if with_bytes(bytes, start, end, kind) == LineKind::Code && kind != LineKind::Code {
            let index = choose|index: int|
                start <= index < end && #[trigger] bytes[index] != 0x20 && bytes[index] != 0x09
                    && bytes[index] != 0x0C && bytes[index] != 0x0D;
            assert(bytes[index] != 0x20);
        }
    }
}

/// A line feed ends a line of Rust source, and the next one starts blank.
pub proof fn line_feeds_end_lines(bytes: Seq<u8>, index: int, kind: LineKind)
    requires
        0 <= index < bytes.len(),
        bytes[index] == 0x0A,
    ensures
        kinds_from(bytes, index, LexicalState::Normal, kind) == seq![kind] + kinds_from(
            bytes,
            index + 1,
            LexicalState::Normal,
            LineKind::Blank,
        ),
        kinds_from(bytes, index, LexicalState::LineComment, kind) == seq![kind] + kinds_from(
            bytes,
            index + 1,
            LexicalState::Normal,
            LineKind::Blank,
        ),
        kinds_from(bytes, index, LexicalState::BlockComment(1), kind) == seq![
            if kind == LineKind::Code {
                LineKind::Code
            } else {
                LineKind::Comment
            },
        ] + kinds_from(bytes, index + 1, LexicalState::BlockComment(1), LineKind::Blank),
{
    let rest = bytes.skip(index);
    assert(rest[0] == 0x0A);
    if opens_with(rest, seq![0x2F, 0x2A]) {
        assert(rest.take(2)[0] == 0x2F);
    }
    if opens_with(rest, seq![0x2A, 0x2F]) {
        assert(rest.take(2)[0] == 0x2A);
    }
}

proof fn lemma_in_line_comment(bytes: Seq<u8>, start: int, end: int, kind: LineKind)
    requires
        0 <= start <= end <= bytes.len(),
        forall|index: int| start <= index < end ==> #[trigger] bytes[index] != 0x0A,
    ensures
        kinds_from(bytes, start, LexicalState::LineComment, kind) == kinds_from(
            bytes,
            end,
            LexicalState::LineComment,
            kind,
        ),
    decreases end - start,
{
    if start < end {
        lemma_in_line_comment(bytes, start + 1, end, kind);
    }
}

/// Two slashes in Rust source make the rest of the line a comment: the line stays code
/// where it is code already, and else is a comment.
pub proof fn slashes_make_a_comment_line(bytes: Seq<u8>, start: int, end: int, kind: LineKind)
    requires
        0 <= start,
        start + 2 <= end < bytes.len(),
        bytes[start] == 0x2F,
        bytes[start + 1] == 0x2F,
        forall|index: int| start <= index < end ==> #[trigger] bytes[index] != 0x0A,
        bytes[end] == 0x0A,
    ensures
        kinds_from(bytes, start, LexicalState::Normal, kind) == seq![
            if kind == LineKind::Code {
                LineKind::Code
            } else {
                LineKind::Comment
            },
        ] + kinds_from(bytes, end + 1, LexicalState::Normal, LineKind::Blank),
{
    let rest = bytes.skip(start);
    assert(rest.take(2) =~= seq![0x2Fu8, 0x2Fu8]);
    assert(rest.take(2)[1] == 0x2F);
    assert(!opens_with(rest, seq![0x2F, 0x2A]));
    assert(byte_at(bytes, start) == Some(0x2Fu8));
    let marked = if kind == LineKind::Code {
        LineKind::Code
    } else {
        LineKind::Comment
    };
    assert(kinds_from(bytes, start, LexicalState::Normal, kind) == kinds_from(
        bytes,
        start + 2,
        LexicalState::LineComment,
        marked,
    ));
    lemma_in_line_comment(bytes, start + 2, end, marked);
    line_feeds_end_lines(bytes, end, marked);
}

proof fn lemma_in_block_comment(bytes: Seq<u8>, start: int, end: int, kind: LineKind)
    requires
        0 <= start <= end <= bytes.len(),
        kind == LineKind::Code || kind == LineKind::Comment,
        forall|index: int|
            start <= index < end ==> #[trigger] bytes[index] != 0x0A && bytes[index] != 0x2A
                && bytes[index] != 0x2F,
    ensures
        kinds_from(bytes, start, LexicalState::BlockComment(1), kind) == kinds_from(
            bytes,
            end,
            LexicalState::BlockComment(1),
            kind,
        ),
    decreases end - start,
{
    if start < end {
        let rest = bytes.skip(start);
        assert(rest[0] == bytes[start]);
        if opens_with(rest, seq![0x2F, 0x2A]) {
            assert(rest.take(2)[0] == 0x2F);
        }
        if opens_with(rest, seq![0x2A, 0x2F]) {
            assert(rest.take(2)[0] == 0x2A);
        }
        lemma_in_block_comment(bytes, start + 1, end, kind);
    }
}

/// A block comment on one line of Rust source makes the line a comment, unless it is
/// code, and code may follow it.
pub proof fn stars_make_a_comment_line(bytes: Seq<u8>, start: int, end: int, kind: LineKind)
    requires
        0 <= start,
        start + 2 <= end,
        end + 1 < bytes.len(),
        bytes[start] == 0x2F,
        bytes[start + 1] == 0x2A,
        forall|index: int|
            start + 2 <= index < end ==> #[trigger] bytes[index] != 0x0A && bytes[index] != 0x2A
                && bytes[index] != 0x2F,
        bytes[end] == 0x2A,
        bytes[end + 1] == 0x2F,
    ensures
        kinds_from(bytes, start, LexicalState::Normal, kind) == kinds_from(
            bytes,
            end + 2,
            LexicalState::Normal,
            if kind == LineKind::Code {
                LineKind::Code
            } else {
                LineKind::Comment
            },
        ),
{
    let rest = bytes.skip(start);
    assert(rest.take(2) =~= seq![0x2Fu8, 0x2Au8]);
    assert(byte_at(bytes, start) == Some(0x2Fu8));
    let marked = if kind == LineKind::Code {
        LineKind::Code
    } else {
        LineKind::Comment
    };
    assert(kinds_from(bytes, start, LexicalState::Normal, kind) == kinds_from(
        bytes,
        start + 2,
        LexicalState::BlockComment(1),
        marked,
    ));
    lemma_in_block_comment(bytes, start + 2, end, marked);
    let last = bytes.skip(end);
    assert(last.take(2) =~= seq![0x2Au8, 0x2Fu8]);
    assert(!opens_with(last, seq![0x2F, 0x2A])) by {
        assert(last.take(2)[0] == 0x2A);
    }
}

proof fn lemma_in_text(bytes: Seq<u8>, start: int, end: int)
    requires
        0 <= start <= end < bytes.len(),
        forall|index: int|
            start <= index < end ==> #[trigger] bytes[index] != 0x0A && bytes[index] != 0x22
                && bytes[index] != 0x5C,
        bytes[end] == 0x22,
    ensures
        kinds_from(
            bytes,
            start,
            LexicalState::Quoted { delimiter: 0x22, escaped: false },
            LineKind::Code,
        ) == kinds_from(bytes, end + 1, LexicalState::Normal, LineKind::Code),
    decreases end - start,
{
    if start < end {
        lemma_in_text(bytes, start + 1, end);
    }
}

/// A text in Rust source makes its line code, whatever it holds.
pub proof fn texts_are_code(bytes: Seq<u8>, start: int, end: int, kind: LineKind)
    requires
        0 <= start < end < bytes.len(),
        bytes[start] == 0x22,
        bytes[end] == 0x22,
        forall|index: int|
            start < index < end ==> #[trigger] bytes[index] != 0x0A && bytes[index] != 0x22
                && bytes[index] != 0x5C,
    ensures
        kinds_from(bytes, start, LexicalState::Normal, kind) == kinds_from(
            bytes,
            end + 1,
            LexicalState::Normal,
            LineKind::Code,
        ),
{
    assert(byte_at(bytes, start) == Some(0x22u8));
    lemma_in_text(bytes, start + 1, end);
}

}
