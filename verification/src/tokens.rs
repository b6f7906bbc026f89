//! Rust source as lexical tokens.
use vstd::prelude::*;
use vstd::utf8::{decode_utf8, encode_utf8, valid_utf8};
use std::str::FromStr;
use proc_macro2::extra::invalidate_current_thread_spans;
use proc_macro2::{Delimiter, Span, TokenStream, TokenTree};
use crate::identity::{hash_count, opens_with};
use crate::spans::{position_at, source_lines, LineSpan, LineTable, TokenRange};
use crate::text::{fits, is_fitting, length_refusal};

verus! {

/// A stream of `proc_macro2` tokens.
#[verifier::external_type_specification]
#[verifier::external_body]
pub struct ExTokenStream(proc_macro2::TokenStream);

/// A place in source as `proc_macro2` keeps it.
#[verifier::external_type_specification]
#[verifier::external_body]
pub struct ExSpan(proc_macro2::Span);

/// A delimiter of a `proc_macro2` group.
#[verifier::external_type_specification]
#[verifier::external_body]
pub struct ExDelimiter(proc_macro2::Delimiter);

/// Why bytes are no UTF-8.
#[verifier::external_type_specification]
#[verifier::external_body]
pub struct ExUtf8Error(core::str::Utf8Error);

/// `core::str::from_utf8` accepts just the bytes that are valid UTF-8, and
/// gives the text that they encode.
pub assume_specification[ core::str::from_utf8 ](bytes: &[u8]) -> (result: Result<
    &str,
    core::str::Utf8Error,
>)
    ensures
        result is Ok <==> valid_utf8(bytes@),
        result matches Ok(text) ==> encode_utf8(text@) == bytes@,
;

/// A source position with a one-based line and a zero-based byte column.
#[derive(Clone, Copy, Debug, PartialEq, Eq, PartialOrd, Ord, Structural)]
pub struct TokenPosition {
    pub line: usize,
    pub column: usize,
}

impl TokenPosition {
    /// Whether a position comes before another.
    pub open spec fn precedes(self, other: TokenPosition) -> bool {
        self.line < other.line || (self.line == other.line && self.column < other.column)
    }

    pub fn is_before(self, other: TokenPosition) -> (answer: bool)
        ensures
            answer == self.precedes(other),
    {
        self.line < other.line || (self.line == other.line && self.column < other.column)
    }
}

#[derive(Clone, Copy, Debug, PartialEq, Eq, Structural)]
pub struct LexedToken {
    pub start: TokenPosition,
    pub end: TokenPosition,
}

/// The tokens of a source file, in source order.
#[derive(Clone, Debug, Default)]
pub struct LexedSource {
    pub tokens: Vec<LexedToken>,
    /// The bytes of each token.
    pub ranges: Vec<TokenRange>,
}

/// How many leading tokens start before a position.
pub open spec fn started_before(tokens: Seq<LexedToken>, position: TokenPosition) -> nat
    decreases tokens.len(),
{
    if tokens.len() == 0 || !tokens[0].start.precedes(position) {
        0
    } else {
        1 + started_before(tokens.skip(1), position)
    }
}

/// How many leading tokens end at or before a position.
pub open spec fn ended_by(tokens: Seq<LexedToken>, position: TokenPosition) -> nat
    decreases tokens.len(),
{
    if tokens.len() == 0 || position.precedes(tokens[0].end) {
        0
    } else {
        1 + ended_by(tokens.skip(1), position)
    }
}

/// How many tokens lie between two positions.
pub open spec fn tokens_between(
    tokens: Seq<LexedToken>,
    start: TokenPosition,
    end: TokenPosition,
) -> int {
    let first = started_before(tokens, start);
    let last = ended_by(tokens, end);
    if last > first {
        last - first
    } else {
        0
    }
}

impl LexedSource {
    pub fn total_tokens(&self) -> (count: usize)
        ensures
            count == self.tokens@.len(),
    {
        self.tokens.len()
    }

    pub fn tokens_in(&self, start: TokenPosition, end: TokenPosition) -> (count: usize)
        ensures
            count == tokens_between(self.tokens@, start, end),
    {
        let first: usize = self.lower_bound_start(start);
        let last: usize = self.upper_bound_end(end);
        if last > first {
            last - first
        } else {
            0
        }
    }

    fn lower_bound_start(&self, position: TokenPosition) -> (count: usize)
        ensures
            count == started_before(self.tokens@, position),
    {
        let mut index: usize = 0;
        assert(self.tokens@.skip(0) =~= self.tokens@);
        while index < self.tokens.len() && self.tokens[index].start.is_before(position)
            invariant
                index <= self.tokens@.len(),
                index + started_before(self.tokens@.skip(index as int), position)
                    == started_before(self.tokens@, position),
            decreases self.tokens@.len() - index,
        {
            assert(self.tokens@.skip(index as int).skip(1) =~= self.tokens@.skip(index + 1));
            index += 1;
        }
        index
    }

    fn upper_bound_end(&self, position: TokenPosition) -> (count: usize)
        ensures
            count == ended_by(self.tokens@, position),
    {
        let mut index: usize = 0;
        assert(self.tokens@.skip(0) =~= self.tokens@);
        while index < self.tokens.len() && !position.is_before(self.tokens[index].end)
            invariant
                index <= self.tokens@.len(),
                index + ended_by(self.tokens@.skip(index as int), position) == ended_by(
                    self.tokens@,
                    position,
                ),
            decreases self.tokens@.len() - index,
        {
            assert(self.tokens@.skip(index as int).skip(1) =~= self.tokens@.skip(index + 1));
            index += 1;
        }
        index
    }
}

/// The byte at a place, where there is one.
pub open spec fn byte_at(bytes: Seq<u8>, index: int) -> Option<u8> {
    if 0 <= index < bytes.len() {
        Some(bytes[index])
    } else {
        None
    }
}

/// The length of the opening of a raw string at a place, and its hashes.
pub open spec fn raw_opening(bytes: Seq<u8>, index: int) -> Option<(nat, nat)> {
    let prefix = if byte_at(bytes, index) == Some(0x72u8) {
        1int
    } else if byte_at(bytes, index) == Some(0x62u8) && byte_at(bytes, index + 1) == Some(0x72u8) {
        2int
    } else {
        0int
    };
    let hashes = hash_count(bytes.skip(index + prefix));
    if prefix > 0 && byte_at(bytes, index + prefix + hashes) == Some(0x22u8) {
        Some(((prefix + hashes + 1) as nat, hashes))
    } else {
        None
    }
}

fn get(bytes: &[u8], index: usize) -> (byte: Option<u8>)
    ensures
        byte == byte_at(bytes@, index as int),
{
    if index < bytes.len() {
        Some(bytes[index])
    } else {
        None
    }
}

pub fn raw_string_delimiter(bytes: &[u8], index: usize) -> (opening: Option<(usize, usize)>)
    requires
        index <= bytes@.len(),
    ensures
        match (opening, raw_opening(bytes@, index as int)) {
            (Some(found), Some(expected)) => found.0 == expected.0 && found.1 == expected.1
                && index + found.0 <= bytes@.len() && found.0 >= 2,
            (None, None) => true,
            _ => false,
        },
{
    let limit: usize = bytes.len();
    if index >= limit {
        return None;
    }
    let prefix: usize = if bytes[index] == 0x72 {
        1
    } else if bytes[index] == 0x62 && index + 1 < limit && bytes[index + 1] == 0x72 {
        2
    } else {
        return None;
    };
    let hashes: usize = crate::identity::count_hashes(bytes, index + prefix);
    let quote: usize = index + prefix + hashes;
    if quote < limit && bytes[quote] == 0x22 {
        Some((prefix + hashes + 1, hashes))
    } else {
        None
    }
}

/// Whether hashes stand at a place.
pub fn has_hashes(bytes: &[u8], start: usize, count: usize) -> (answer: bool)
    requires
        start <= bytes@.len(),
    ensures
        answer == (hash_count(bytes@.skip(start as int)) >= count),
        answer ==> start + count <= bytes@.len(),
{
    crate::identity::count_hashes(bytes, start) >= count
}

/// Whether a byte is a hexadecimal digit.
pub open spec fn hex_byte(byte: u8) -> bool {
    0x30 <= byte <= 0x39 || 0x41 <= byte <= 0x46 || 0x61 <= byte <= 0x66
}

fn is_hex_byte(byte: u8) -> (answer: bool)
    ensures
        answer == hex_byte(byte),
{
    (0x30 <= byte && byte <= 0x39) || (0x41 <= byte && byte <= 0x46) || (0x61 <= byte && byte
        <= 0x66)
}

/// Whether a byte may stand alone behind a backslash.
pub open spec fn simple_escape(byte: u8) -> bool {
    byte == 0x6E || byte == 0x72 || byte == 0x74 || byte == 0x5C || byte == 0x27 || byte == 0x22
        || byte == 0x30
}

/// Whether digits, a closing brace and a quote follow, with a digit at least.
pub open spec fn unicode_rest(bytes: Seq<u8>, cursor: int, has_digit: bool) -> bool
    decreases bytes.len() - cursor,
{
    if cursor < 0 || cursor >= bytes.len() {
        false
    } else if bytes[cursor] == 0x7D {
        has_digit && byte_at(bytes, cursor + 1) == Some(0x27u8)
    } else if bytes[cursor] == 0x5F {
        unicode_rest(bytes, cursor + 1, has_digit)
    } else {
        hex_byte(bytes[cursor]) && unicode_rest(bytes, cursor + 1, true)
    }
}

/// Whether the rest of an escaped character literal follows the backslash.
pub open spec fn escaped_rest(bytes: Seq<u8>, escape: int) -> bool {
    match byte_at(bytes, escape) {
        None => false,
        Some(byte) => if simple_escape(byte) {
            byte_at(bytes, escape + 1) == Some(0x27u8)
        } else if byte == 0x78 {
            &&& byte_at(bytes, escape + 1) matches Some(first) && hex_byte(first)
            &&& byte_at(bytes, escape + 2) matches Some(second) && hex_byte(second)
            &&& byte_at(bytes, escape + 3) == Some(0x27u8)
        } else if byte == 0x75 {
            byte_at(bytes, escape + 1) == Some(0x7Bu8) && unicode_rest(bytes, escape + 2, false)
        } else {
            false
        },
    }
}

/// How many bytes a character with this first byte takes in UTF-8.
pub open spec fn character_width(first: u8) -> Option<nat> {
    if first <= 0x7F {
        Some(1)
    } else if 0xC2 <= first <= 0xDF {
        Some(2)
    } else if 0xE0 <= first <= 0xEF {
        Some(3)
    } else if 0xF0 <= first <= 0xF4 {
        Some(4)
    } else {
        None
    }
}

/// Whether one character and a quote follow.
pub open spec fn plain_rest(bytes: Seq<u8>, start: int) -> bool {
    match character_width(bytes[start]) {
        None => false,
        Some(width) => start + width <= bytes.len() && valid_utf8(
            bytes.subrange(start, start + width),
        ) && byte_at(bytes, start + width) == Some(0x27u8),
    }
}

/// Whether a character literal starts at a place, not a lifetime or a label.
pub open spec fn char_literal(bytes: Seq<u8>, index: int) -> bool {
    &&& byte_at(bytes, index) == Some(0x27u8)
    &&& match byte_at(bytes, index + 1) {
        None => false,
        Some(byte) => if byte == 0x5C {
            escaped_rest(bytes, index + 2)
        } else if byte == 0x0A || byte == 0x0D {
            false
        } else {
            plain_rest(bytes, index + 1)
        },
    }
}

/// Recognize the literal forms needed to distinguish a character from a
/// lifetime or label. Plain characters inspect at most one UTF-8 scalar, and
/// Unicode escapes inspect only the bytes through their closing brace.
pub fn looks_like_char_literal(bytes: &[u8], index: usize) -> (answer: bool)
    ensures
        answer == char_literal(bytes@, index as int),
{
    let limit: usize = bytes.len();
    if index >= limit || bytes[index] != 0x27 {
        return false;
    }
    if index + 1 >= limit {
        return false;
    }
    let first: u8 = bytes[index + 1];
    if first == 0x5C {
        escaped_char_literal(bytes, index + 2)
    } else if first == 0x0A || first == 0x0D {
        false
    } else {
        plain_char_literal(bytes, index + 1)
    }
}

fn escaped_char_literal(bytes: &[u8], escape: usize) -> (answer: bool)
    requires
        escape <= bytes@.len(),
    ensures
        answer == escaped_rest(bytes@, escape as int),
{
    let rest: usize = bytes.len() - escape;
    if rest == 0 {
        return false;
    }
    let byte: u8 = bytes[escape];
    if byte == 0x6E || byte == 0x72 || byte == 0x74 || byte == 0x5C || byte == 0x27 || byte == 0x22
        || byte == 0x30 {
        rest > 1 && bytes[escape + 1] == 0x27
    } else if byte == 0x78 {
        rest > 3 && is_hex_byte(bytes[escape + 1]) && is_hex_byte(bytes[escape + 2])
            && bytes[escape + 3] == 0x27
    } else if byte == 0x75 {
        rest > 1 && bytes[escape + 1] == 0x7B && unicode_char_escape(bytes, escape + 2)
    } else {
        false
    }
}

fn unicode_char_escape(bytes: &[u8], start: usize) -> (answer: bool)
    requires
        start <= bytes@.len(),
    ensures
        answer == unicode_rest(bytes@, start as int, false),
{
    let mut cursor: usize = start;
    let mut has_digit: bool = false;
    while cursor < bytes.len()
        invariant
            start <= cursor <= bytes@.len(),
            unicode_rest(bytes@, cursor as int, has_digit) == unicode_rest(
                bytes@,
                start as int,
                false,
            ),
        decreases bytes@.len() - cursor,
    {
        let byte: u8 = bytes[cursor];
        if byte == 0x7D {
            return has_digit && bytes.len() - cursor > 1 && bytes[cursor + 1] == 0x27;
        }
        if byte != 0x5F {
            if !is_hex_byte(byte) {
                return false;
            }
            has_digit = true;
        }
        cursor += 1;
    }
    false
}

fn utf8_char_width(first: u8) -> (width: Option<usize>)
    ensures
        match (width, character_width(first)) {
            (Some(found), Some(expected)) => found == expected,
            (None, None) => true,
            _ => false,
        },
{
    if first <= 0x7F {
        Some(1)
    } else if 0xC2 <= first && first <= 0xDF {
        Some(2)
    } else if 0xE0 <= first && first <= 0xEF {
        Some(3)
    } else if 0xF0 <= first && first <= 0xF4 {
        Some(4)
    } else {
        None
    }
}

fn plain_char_literal(bytes: &[u8], start: usize) -> (answer: bool)
    requires
        start < bytes@.len(),
    ensures
        answer == plain_rest(bytes@, start as int),
{
    let rest: usize = bytes.len() - start;
    let width: usize = match utf8_char_width(bytes[start]) {
        Some(width) => width,
        None => return false,
    };
    if rest <= width {
        return false;
    }
    let candidate = vstd::slice::slice_subrange(bytes, start, start + width);
    core::str::from_utf8(candidate).is_ok() && bytes[start + width] == 0x27
}

/// What the masking of doc comments is in the middle of.
#[derive(Clone, Copy, Debug, PartialEq, Eq, Structural)]
pub enum MaskState {
    Code,
    Quoted { quote: u8, escaped: bool },
    RawString { hashes: usize },
    BlockComment { depth: usize, mask: bool },
}

/// One step of masking: where it goes on, in what state, and whether the bytes
/// up to there are blanked.
pub struct MaskStep {
    pub next: int,
    pub state: MaskState,
    pub blank: bool,
}

/// Where the line ends that goes on at a place.
pub open spec fn line_end(bytes: Seq<u8>, index: int) -> int
    decreases bytes.len() - index,
{
    if index >= bytes.len() || bytes[index] == 0x0A {
        index
    } else {
        line_end(bytes, index + 1)
    }
}

/// A step in code.
pub open spec fn code_step(bytes: Seq<u8>, index: int) -> MaskStep {
    let rest = bytes.skip(index);
    let code = MaskState::Code;
    if raw_opening(bytes, index) is Some {
        let opening = raw_opening(bytes, index)->Some_0;
        MaskStep {
            next: index + opening.0,
            state: MaskState::RawString { hashes: opening.1 as usize },
            blank: false,
        }
    } else if bytes[index] == 0x22 {
        MaskStep {
            next: index + 1,
            state: MaskState::Quoted { quote: 0x22, escaped: false },
            blank: false,
        }
    } else if char_literal(bytes, index) {
        MaskStep {
            next: index + 1,
            state: MaskState::Quoted { quote: 0x27, escaped: false },
            blank: false,
        }
    } else if opens_with(rest, seq![0x2F, 0x2A]) {
        let doc = byte_at(bytes, index + 2) == Some(0x2Au8) || byte_at(bytes, index + 2) == Some(
            0x21u8,
        );
        MaskStep {
            next: index + 2,
            state: MaskState::BlockComment { depth: 1, mask: doc },
            blank: doc,
        }
    } else if opens_with(rest, seq![0x2F, 0x2F]) {
        let doc = byte_at(bytes, index + 2) == Some(0x2Fu8) || byte_at(bytes, index + 2) == Some(
            0x21u8,
        );
        MaskStep { next: line_end(bytes, index), state: code, blank: doc }
    } else {
        MaskStep { next: index + 1, state: code, blank: false }
    }
}

/// A step in any state.
pub open spec fn mask_step(bytes: Seq<u8>, index: int, state: MaskState) -> MaskStep {
    let rest = bytes.skip(index);
    match state {
        MaskState::Code => code_step(bytes, index),
        MaskState::Quoted { quote, escaped } => MaskStep {
            next: index + 1,
            state: if escaped {
                MaskState::Quoted { quote, escaped: false }
            } else if bytes[index] == 0x5C {
                MaskState::Quoted { quote, escaped: true }
            } else if bytes[index] == quote {
                MaskState::Code
            } else {
                state
            },
            blank: false,
        },
        MaskState::RawString { hashes } => if bytes[index] == 0x22 && hash_count(
            bytes.skip(index + 1),
        ) >= hashes {
            MaskStep { next: index + hashes + 1, state: MaskState::Code, blank: false }
        } else {
            MaskStep { next: index + 1, state, blank: false }
        },
        MaskState::BlockComment { depth, mask } => if opens_with(rest, seq![0x2F, 0x2A]) {
            MaskStep {
                next: index + 2,
                state: MaskState::BlockComment {
                    depth: if depth < usize::MAX {
                        (depth + 1) as usize
                    } else {
                        depth
                    },
                    mask,
                },
                blank: mask,
            }
        } else if opens_with(rest, seq![0x2A, 0x2F]) {
            MaskStep {
                next: index + 2,
                state: if depth <= 1 {
                    MaskState::Code
                } else {
                    MaskState::BlockComment { depth: (depth - 1) as usize, mask }
                },
                blank: mask,
            }
        } else {
            MaskStep { next: index + 1, state, blank: mask }
        },
    }
}

/// Bytes with all but line breaks made spaces.
pub open spec fn blanked(bytes: Seq<u8>) -> Seq<u8> {
    bytes.map_values(
        |byte: u8|
            if byte == 0x0A || byte == 0x0D {
                byte
            } else {
                0x20
            },
    )
}

/// Source from a place on, with doc comments blanked.
pub open spec fn masked_from(bytes: Seq<u8>, index: int, state: MaskState) -> Seq<u8>
    decreases bytes.len() - index,
{
    let step = mask_step(bytes, index, state);
    if index < 0 || index >= bytes.len() || step.next <= index || step.next > bytes.len() {
        Seq::empty()
    } else {
        (if step.blank {
            blanked(bytes.subrange(index, step.next))
        } else {
            bytes.subrange(index, step.next)
        }) + masked_from(bytes, step.next, step.state)
    }
}

/// Source with its doc comments blanked.
pub open spec fn masked(bytes: Seq<u8>) -> Seq<u8> {
    masked_from(bytes, 0, MaskState::Code)
}

/// Source text with its doc comments blanked.
pub open spec fn masked_text(source: Seq<char>) -> Seq<char> {
    decode_utf8(masked(encode_utf8(source)))
}

/// Whether a step was made in a masked comment.
pub open spec fn in_masked_comment(state: MaskState) -> bool {
    match state {
        MaskState::BlockComment { depth: _, mask } => mask,
        _ => false,
    }
}

fn starts_pair(bytes: &[u8], index: usize, first: u8, second: u8) -> (answer: bool)
    requires
        index < bytes@.len(),
    ensures
        answer == opens_with(bytes@.skip(index as int), seq![first, second]),
{
    crate::identity::opens_with_pair(bytes, index, first, second)
}

fn find_line_end(bytes: &[u8], start: usize) -> (end: usize)
    requires
        start <= bytes@.len(),
    ensures
        start <= end <= bytes@.len(),
        end == line_end(bytes@, start as int),
        end < bytes@.len() ==> bytes@[end as int] == 0x0A,
{
    let mut index: usize = start;
    while index < bytes.len() && bytes[index] != 0x0A
        invariant
            start <= index <= bytes@.len(),
            line_end(bytes@, start as int) == line_end(bytes@, index as int),
        decreases bytes@.len() - index,
    {
        index += 1;
    }
    index
}

fn advance_code(bytes: &[u8], index: usize) -> (step: (usize, MaskState, bool))
    requires
        index < bytes@.len(),
    ensures
        (MaskStep { next: step.0 as int, state: step.1, blank: step.2 }) == code_step(
            bytes@,
            index as int,
        ),
        index < step.0 <= bytes@.len(),
        step.2 ==> bytes@[index as int] == 0x2F,
        step.2 && !in_masked_comment(step.1) ==> step.0 == bytes@.len() || bytes@[step.0 as int]
            == 0x0A,
{
    let limit: usize = bytes.len();
    if let Some((length, hashes)) = raw_string_delimiter(bytes, index) {
        return (index + length, MaskState::RawString { hashes }, false);
    }
    if bytes[index] == 0x22 {
        return (index + 1, MaskState::Quoted { quote: 0x22, escaped: false }, false);
    }
    if bytes[index] == 0x27 && looks_like_char_literal(bytes, index) {
        return (index + 1, MaskState::Quoted { quote: 0x27, escaped: false }, false);
    }
    if starts_pair(bytes, index, 0x2F, 0x2A) {
        proof {
            let rest = bytes@.skip(index as int);
            assert(rest.take(2)[0] == bytes@[index as int]);
        }
        let doc: bool = limit - index > 2 && (bytes[index + 2] == 0x2A || bytes[index + 2]
            == 0x21);
        return (index + 2, MaskState::BlockComment { depth: 1, mask: doc }, doc);
    }
    if starts_pair(bytes, index, 0x2F, 0x2F) {
        proof {
            let rest = bytes@.skip(index as int);
            assert(rest.take(2)[0] == bytes@[index as int]);
        }
        let doc: bool = limit - index > 2 && (bytes[index + 2] == 0x2F || bytes[index + 2]
            == 0x21);
        let end: usize = find_line_end(bytes, index);
        return (end, MaskState::Code, doc);
    }
    (index + 1, MaskState::Code, false)
}

fn advance_quoted(current: u8, quote: u8, escaped: bool) -> (state: MaskState)
    ensures
        state == if escaped {
            MaskState::Quoted { quote, escaped: false }
        } else if current == 0x5C {
            MaskState::Quoted { quote, escaped: true }
        } else if current == quote {
            MaskState::Code
        } else {
            MaskState::Quoted { quote, escaped }
        },
{
    if escaped {
        MaskState::Quoted { quote, escaped: false }
    } else if current == 0x5C {
        MaskState::Quoted { quote, escaped: true }
    } else if current == quote {
        MaskState::Code
    } else {
        MaskState::Quoted { quote, escaped: false }
    }
}

fn advance_block_comment(bytes: &[u8], index: usize, depth: usize, mask: bool) -> (step: (
    usize,
    MaskState,
    bool,
))
    requires
        index < bytes@.len(),
    ensures
        (MaskStep { next: step.0 as int, state: step.1, blank: step.2 }) == mask_step(
            bytes@,
            index as int,
            MaskState::BlockComment { depth, mask },
        ),
        index < step.0 <= bytes@.len(),
        mask && !in_masked_comment(step.1) ==> bytes@[step.0 - 1] == 0x2F,
{
    let limit: usize = bytes.len();
    if starts_pair(bytes, index, 0x2F, 0x2A) {
        let deeper: usize = if depth < usize::MAX {
            depth + 1
        } else {
            depth
        };
        return (index + 2, MaskState::BlockComment { depth: deeper, mask }, mask);
    }
    if starts_pair(bytes, index, 0x2A, 0x2F) {
        proof {
            let rest = bytes@.skip(index as int);
            assert(rest.take(2)[1] == bytes@[index + 1]);
        }
        let state = if depth <= 1 {
            MaskState::Code
        } else {
            MaskState::BlockComment { depth: depth - 1, mask }
        };
        return (index + 2, state, mask);
    }
    (index + 1, MaskState::BlockComment { depth, mask }, mask)
}

fn advance(bytes: &[u8], index: usize, state: MaskState) -> (step: (usize, MaskState, bool))
    requires
        index < bytes@.len(),
    ensures
        (MaskStep { next: step.0 as int, state: step.1, blank: step.2 }) == mask_step(
            bytes@,
            index as int,
            state,
        ),
        index < step.0 <= bytes@.len(),
        step.2 && !in_masked_comment(state) ==> bytes@[index as int] == 0x2F,
        in_masked_comment(state) ==> step.2,
        !step.2 ==> !in_masked_comment(step.1),
        step.2 && !in_masked_comment(step.1) ==> bytes@[step.0 - 1] == 0x2F || step.0
            == bytes@.len() || bytes@[step.0 as int] == 0x0A,
{
    let limit: usize = bytes.len();
    match state {
        MaskState::Code => advance_code(bytes, index),
        MaskState::Quoted { quote, escaped } => (
            index + 1,
            advance_quoted(bytes[index], quote, escaped),
            false,
        ),
        MaskState::RawString { hashes } => {
            if bytes[index] == 0x22 && has_hashes(bytes, index + 1, hashes) {
                (index + 1 + hashes, MaskState::Code, false)
            } else {
                (index + 1, state, false)
            }
        },
        MaskState::BlockComment { depth, mask } => advance_block_comment(
            bytes,
            index,
            depth,
            mask,
        ),
    }
}

proof fn lemma_boundary_parts(bytes: Seq<u8>, index: int)
    requires
        valid_utf8(bytes),
        0 <= index <= bytes.len(),
        index < bytes.len() ==> bytes[index] < 0x80,
    ensures
        valid_utf8(bytes.take(index)),
        valid_utf8(bytes.skip(index)),
{
    vstd::utf8::is_char_boundary_start_end_of_seq(bytes);
    if index < bytes.len() {
        vstd::utf8::is_char_boundary_iff_not_is_continuation_byte(bytes, index);
        let byte = bytes[index];
        assert(!vstd::utf8::is_continuation_byte(byte));
    }
    vstd::utf8::valid_utf8_split(bytes, index);
    assert(bytes.subrange(0, index) =~= bytes.take(index));
    assert(bytes.subrange(index, bytes.len() as int) =~= bytes.skip(index));
}

proof fn lemma_behind_ascii(bytes: Seq<u8>, index: int)
    requires
        valid_utf8(bytes),
        0 <= index < bytes.len(),
        bytes[index] < 0x80,
    ensures
        valid_utf8(bytes.skip(index + 1)),
{
    lemma_boundary_parts(bytes, index);
    let rest = bytes.skip(index);
    assert(rest[0] == bytes[index]);
    assert(vstd::utf8::is_leading_byte_width_1(rest[0]));
    assert(vstd::utf8::pop_first_scalar(rest) =~= bytes.skip(index + 1));
}

proof fn lemma_ascii_valid(bytes: Seq<u8>)
    requires
        forall|index: int| 0 <= index < bytes.len() ==> #[trigger] bytes[index] < 0x80,
    ensures
        valid_utf8(bytes),
    decreases bytes.len(),
{
    if bytes.len() > 0 {
        let rest = bytes.skip(1);
        assert forall|index: int| 0 <= index < rest.len() implies #[trigger] rest[index] < 0x80 by {
            assert(rest[index] == bytes[index + 1]);
        }
        lemma_ascii_valid(rest);
        assert(bytes[0] < 0x80);
        assert(vstd::utf8::is_leading_byte_width_1(bytes[0]));
        assert(vstd::utf8::pop_first_scalar(bytes) =~= rest);
    }
}

/// Whether masking has kept the text so far: what is done is valid by itself
/// within a masked comment, and else together with what follows.
spec fn mask_valid(done: Seq<u8>, bytes: Seq<u8>, index: int, state: MaskState) -> bool {
    if in_masked_comment(state) {
        valid_utf8(done)
    } else {
        valid_utf8(done + bytes.skip(index))
    }
}

proof fn lemma_mask_step_valid(
    done: Seq<u8>,
    bytes: Seq<u8>,
    index: int,
    state: MaskState,
    next: int,
    next_state: MaskState,
    blank: bool,
)
    requires
        valid_utf8(bytes),
        0 <= index < next <= bytes.len(),
        done.len() == index,
        mask_valid(done, bytes, index, state),
        blank && !in_masked_comment(state) ==> bytes[index] == 0x2F,
        in_masked_comment(state) ==> blank,
        !blank ==> !in_masked_comment(next_state),
        blank && !in_masked_comment(next_state) ==> bytes[next - 1] == 0x2F || next == bytes.len()
            || bytes[next] == 0x0A,
    ensures
        mask_valid(
            done + if blank {
                blanked(bytes.subrange(index, next))
            } else {
                bytes.subrange(index, next)
            },
            bytes,
            next,
            next_state,
        ),
{
    let part = bytes.subrange(index, next);
    if blank {
        if !in_masked_comment(state) {
            let whole = done + bytes.skip(index);
            assert(whole[index] == bytes[index]);
            lemma_boundary_parts(whole, index);
            assert(whole.take(index) =~= done);
        }
        let blanks = blanked(part);
        assert forall|place: int| 0 <= place < blanks.len() implies #[trigger] blanks[place]
            < 0x80 by {}
        lemma_ascii_valid(blanks);
        vstd::utf8::valid_utf8_concat(done, blanks);
        if !in_masked_comment(next_state) {
            if bytes[next - 1] == 0x2F {
                lemma_behind_ascii(bytes, next - 1);
            } else {
                lemma_boundary_parts(bytes, next);
            }
            vstd::utf8::valid_utf8_concat(done + blanks, bytes.skip(next));
        }
    } else {
        assert(done + part + bytes.skip(next) =~= done + bytes.skip(index));
    }
}

/// proc-macro2 intentionally turns Rust doc comments into `#[doc = ...]`
/// attributes. Those attributes are useful to a macro, but for Kompass they
/// are comments and must not inflate the lexical count. Masking only the
/// comment bytes preserves every span position while leaving ordinary comments
/// to the lexer itself.
pub fn mask_doc_comments(source: &str) -> (text: String)
    ensures
        text@ == masked_text(source@),
        encode_utf8(text@) == masked(encode_utf8(source@)),
{
    let bytes = source.as_bytes();
    let mut output: Vec<u8> = Vec::new();
    let mut index: usize = 0;
    let mut state = MaskState::Code;
    proof {
        vstd::utf8::encode_utf8_valid_utf8(source@);
        assert(output@ + bytes@.skip(0) =~= bytes@);
        assert(output@ + masked(bytes@) =~= masked(bytes@));
    }
    while index < bytes.len()
        invariant
            index <= bytes@.len(),
            valid_utf8(bytes@),
            output@.len() == index,
            mask_valid(output@, bytes@, index as int, state),
            output@ + masked_from(bytes@, index as int, state) == masked(bytes@),
        decreases bytes@.len() - index,
    {
        let (next, next_state, blank) = advance(bytes, index, state);
        let ghost done = output@;
        let ghost part = bytes@.subrange(index as int, next as int);
        let ghost added = if blank {
            blanked(part)
        } else {
            part
        };
        proof {
            lemma_mask_step_valid(
                done,
                bytes@,
                index as int,
                state,
                next as int,
                next_state,
                blank,
            );
        }
        let mut place: usize = index;
        while place < next
            invariant
                index <= place <= next <= bytes@.len(),
                part == bytes@.subrange(index as int, next as int),
                added == if blank {
                    blanked(part)
                } else {
                    part
                },
                output@ =~= done + added.take(place - index),
            decreases next - place,
        {
            let byte: u8 = bytes[place];
            assert(part[place - index] == byte);
            if blank && byte != 0x0A && byte != 0x0D {
                output.push(0x20);
            } else {
                output.push(byte);
            }
            place += 1;
        }
        proof {
            assert(added.take(next - index) =~= added);
            let rest = masked_from(bytes@, next as int, next_state);
            assert(done + (added + rest) =~= done + added + rest);
        }
        index = next;
        state = next_state;
    }
    proof {
        assert(masked_from(bytes@, index as int, state) =~= Seq::<u8>::empty());
        assert(output@ + Seq::<u8>::empty() =~= output@);
        assert(output@ + bytes@.skip(index as int) =~= output@);
    }
    match core::str::from_utf8(output.as_slice()) {
        Ok(text) => {
            proof {
                vstd::utf8::encode_utf8_decode_utf8(text@);
            }
            text.to_owned()
        },
        Err(_) => {
            assert(false);
            String::new()
        },
    }
}

/// How a token stream lists a token: by itself, or as an end of a group.
#[derive(Clone, Copy, Debug, PartialEq, Eq, Structural)]
pub enum TokenRole {
    Single,
    Parenthesis,
    Brace,
    Bracket,
    Invisible,
}

/// A token as it is met in a token stream.
#[derive(Clone, Copy, Debug, PartialEq, Eq, Structural)]
pub struct TokenEvent {
    pub role: TokenRole,
    pub start: usize,
    pub end: usize,
}

/// What the token stream of Rust source lists, from `proc_macro2`, or why the
/// source has none.
pub uninterp spec fn token_events(source: Seq<char>) -> Result<Seq<TokenEvent>, Seq<char>>;

/// A token at a `proc_macro2::Span`. Nothing is said of where that is.
#[verifier::external_body]
fn token_at(role: TokenRole, span: Span) -> TokenEvent {
    let range = span.byte_range();
    TokenEvent { role, start: range.start, end: range.end }
}

/// How a `proc_macro2::Delimiter` is listed.
#[verifier::external_body]
fn delimiter_role(delimiter: Delimiter) -> TokenRole {
    match delimiter {
        Delimiter::Parenthesis => TokenRole::Parenthesis,
        Delimiter::Brace => TokenRole::Brace,
        Delimiter::Bracket => TokenRole::Bracket,
        Delimiter::None => TokenRole::Invisible,
    }
}

/// Lists the tokens of a `proc_macro2::TokenStream` in source order, each group
/// between its two delimiters. Nothing is said of what it lists.
#[verifier::external_body]
fn record_tokens(stream: TokenStream, events: &mut Vec<TokenEvent>) {
    for token in stream {
        match token {
            TokenTree::Group(group) => {
                let role = delimiter_role(group.delimiter());
                events.push(token_at(role, group.span_open()));
                record_tokens(group.stream(), events);
                events.push(token_at(role, group.span_close()));
            }
            single => events.push(token_at(TokenRole::Single, single.span())),
        }
    }
}

/// How many bytes of source `proc_macro2` can count: its spans take 32 bits, and
/// those of a first text start at one.
pub const SPAN_LIMIT: u32 = 0xFFFF_FFFE;

/// `proc_macro2::TokenStream::from_str`: the token stream of source, listed, or
/// the text of its error. Both depend on the source alone: the texts that
/// `proc_macro2` keeps for the spans of a thread are dropped before and after.
#[verifier::external_body]
fn tokenize(source: &str) -> (result: Result<Vec<TokenEvent>, String>)
    requires
        fits(source@, SPAN_LIMIT),
    ensures
        match (result, token_events(source@)) {
            (Ok(events), Ok(expected)) => events@ == expected,
            (Err(message), Err(expected)) => message@ == expected,
            _ => false,
        },
{
    invalidate_current_thread_spans();
    let result = match TokenStream::from_str(source) {
        Ok(stream) => {
            let mut events = Vec::new();
            record_tokens(stream, &mut events);
            Ok(events)
        }
        Err(error) => Err(error.to_string()),
    };
    invalidate_current_thread_spans();
    result
}

/// The bytes of the tokens that count among the first `count` events: all but
/// the ends of groups that no delimiter shows.
pub open spec fn counted_ranges(events: Seq<TokenEvent>, count: nat) -> Seq<TokenRange>
    decreases count,
{
    if count == 0 {
        Seq::empty()
    } else {
        let earlier = counted_ranges(events, (count - 1) as nat);
        let event = events[count - 1];
        if event.role != TokenRole::Invisible {
            earlier.push(TokenRange { start: event.start, end: event.end })
        } else {
            earlier
        }
    }
}

/// An offset as the line and column of a token.
pub open spec fn token_position(lines: Seq<LineSpan>, offset: usize) -> TokenPosition {
    let position = position_at(lines, offset);
    TokenPosition { line: position.line, column: (position.column - 1) as usize }
}

/// The lines and columns of tokens.
pub open spec fn positioned(lines: Seq<LineSpan>, ranges: Seq<TokenRange>) -> Seq<LexedToken> {
    ranges.map_values(
        |range: TokenRange|
            LexedToken {
                start: token_position(lines, range.start),
                end: token_position(lines, range.end),
            },
    )
}

fn place_token(table: &LineTable, offset: usize) -> (position: TokenPosition)
    requires
        table.well_formed(),
    ensures
        position == token_position(table.lines@, offset),
{
    let place = table.position(offset);
    TokenPosition { line: place.line, column: place.column - 1 }
}

/// The tokens of what the token stream of a text lists.
pub fn flatten(text: &str, events: &Vec<TokenEvent>) -> (source: LexedSource)
    ensures
        source.ranges@ == counted_ranges(events@, events@.len()),
        source.tokens@ == positioned(
            source_lines(encode_utf8(text@), false),
            counted_ranges(events@, events@.len()),
        ),
{
    let table = LineTable::new(text, false);
    let mut tokens: Vec<LexedToken> = Vec::new();
    let mut ranges: Vec<TokenRange> = Vec::new();
    let mut index: usize = 0;
    while index < events.len()
        invariant
            index <= events@.len(),
            table.well_formed(),
            ranges@ == counted_ranges(events@, index as nat),
            tokens@ =~= positioned(table.lines@, ranges@),
        decreases events@.len() - index,
    {
        let event = events[index];
        if event.role != TokenRole::Invisible {
            ranges.push(TokenRange { start: event.start, end: event.end });
            let start = place_token(&table, event.start);
            let end = place_token(&table, event.end);
            tokens.push(LexedToken { start, end });
        }
        index += 1;
    }
    LexedSource { tokens, ranges }
}

/// Whether tokens are those of a text that lists events.
pub open spec fn lexes(lexed: LexedSource, text: Seq<char>, events: Seq<TokenEvent>) -> bool {
    let ranges = counted_ranges(events, events.len());
    &&& lexed.ranges@ == ranges
    &&& lexed.tokens@ == positioned(source_lines(encode_utf8(text), false), ranges)
}

/// The token events of source, or why it has none.
pub open spec fn listed_tokens(source: Seq<char>) -> Result<Seq<TokenEvent>, Seq<char>> {
    if fits(source, SPAN_LIMIT) {
        token_events(source)
    } else {
        Err(length_refusal())
    }
}

/// Lex Rust source once using proc-macro2's source lexer.
///
/// Every identifier, keyword, literal, punctuation mark, and delimiter is
/// one token. Multi-character punctuation is deliberately counted one
/// punctuation character at a time (`->` is two, `::` is two, and `..=` is
/// three), matching proc-macro2's `Punct` representation. Group delimiters
/// are added explicitly because proc-macro2 exposes them as `Group` metadata.
/// Macro bodies are traversed as written and are never expanded.
pub fn lex(source: &str) -> (result: Result<LexedSource, String>)
    ensures
        match (result, listed_tokens(masked_text(source@))) {
            (Ok(lexed), Ok(events)) => lexes(lexed, masked_text(source@), events),
            (Err(message), Err(expected)) => message@ == expected,
            _ => false,
        },
{
    let text = mask_doc_comments(source);
    if !is_fitting(text.as_str(), SPAN_LIMIT) {
        return Err("source is too long to analyze".to_owned());
    }
    match tokenize(text.as_str()) {
        Ok(events) => Ok(flatten(text.as_str(), &events)),
        Err(message) => Err(message),
    }
}

proof fn lemma_masked_positions(bytes: Seq<u8>, index: int, state: MaskState)
    requires
        0 <= index <= bytes.len(),
    ensures
        masked_from(bytes, index, state).len() == bytes.len() - index,
        forall|place: int|
            index <= place < bytes.len() ==> {
                let byte = #[trigger] masked_from(bytes, index, state)[place - index];
                byte == bytes[place] || (byte == 0x20 && bytes[place] != 0x0A && bytes[place]
                    != 0x0D)
            },
    decreases bytes.len() - index,
{
    if index < bytes.len() {
        lemma_step_advances(bytes, index, state);
        let step = mask_step(bytes, index, state);
        lemma_masked_positions(bytes, step.next, step.state);
        let part = bytes.subrange(index, step.next);
        let front = if step.blank {
            blanked(part)
        } else {
            part
        };
        let rest = masked_from(bytes, step.next, step.state);
        let whole = masked_from(bytes, index, state);
        assert(whole =~= front + rest);
        assert forall|place: int| index <= place < bytes.len() implies ({
            let byte = #[trigger] whole[place - index];
            byte == bytes[place] || (byte == 0x20 && bytes[place] != 0x0A && bytes[place] != 0x0D)
        }) by {
            if place >= step.next {
                assert(whole[place - index] == rest[place - step.next]);
            } else {
                assert(part[place - index] == bytes[place]);
            }
        }
    }
}

proof fn lemma_hashes_fit(rest: Seq<u8>)
    ensures
        hash_count(rest) <= rest.len(),
    decreases rest.len(),
{
    if rest.len() > 0 && rest[0] == 0x23 {
        lemma_hashes_fit(rest.skip(1));
    }
}

proof fn lemma_line_end(bytes: Seq<u8>, index: int)
    requires
        0 <= index <= bytes.len(),
    ensures
        index <= line_end(bytes, index) <= bytes.len(),
        index < bytes.len() && bytes[index] != 0x0A ==> index < line_end(bytes, index),
    decreases bytes.len() - index,
{
    if index < bytes.len() && bytes[index] != 0x0A {
        lemma_line_end(bytes, index + 1);
    }
}

proof fn lemma_step_advances(bytes: Seq<u8>, index: int, state: MaskState)
    requires
        0 <= index < bytes.len(),
    ensures
        index < mask_step(bytes, index, state).next <= bytes.len(),
{
    lemma_line_end(bytes, index);
    lemma_hashes_fit(bytes.skip(index + 1));
    let rest = bytes.skip(index);
    if rest.len() >= 2 {
        assert(rest.take(2)[0] == bytes[index]);
    }
    match state {
        MaskState::Code => {
            if opens_with(rest, seq![0x2F, 0x2F]) {
                assert(rest.take(2)[0] == 0x2F);
            }
        },
        _ => {},
    }
}

/// Masking keeps every position: each byte stays where it is, line breaks stay
/// themselves, and any other byte stays or becomes a space.
pub proof fn masking_keeps_positions(source: Seq<u8>)
    ensures
        masked(source).len() == source.len(),
        forall|place: int|
            0 <= place < source.len() ==> {
                let byte = #[trigger] masked(source)[place];
                byte == source[place] || (byte == 0x20 && source[place] != 0x0A && source[place]
                    != 0x0D)
            },
{
    lemma_masked_positions(source, 0, MaskState::Code);
    assert forall|place: int| 0 <= place < source.len() implies ({
        let byte = #[trigger] masked(source)[place];
        byte == source[place] || (byte == 0x20 && source[place] != 0x0A && source[place] != 0x0D)
    }) by {
        assert(masked_from(source, 0, MaskState::Code)[place - 0] == masked(source)[place]);
    }
}

}
