//! Stable, source-derived identity evidence for analyzed units.
//!
//! A report is a snapshot of source, so its unit ids deliberately hold the
//! snapshot path and source location. They are useful for exact matches in
//! an unchanged scope. Comparisons use the declaration and body fingerprints
//! as the portable evidence when a unit moves, is renamed, or shifts because a
//! sibling was inserted.
use vstd::prelude::*;
use vstd::string::StringExecFns;
use vstd::utf8::encode_utf8;
use crate::model::{FunctionReport, Language, Position};
use crate::text::{decimal, push_decimal};
use crate::tokens::{
    byte_at, char_literal, character_width, looks_like_char_literal, unicode_rest, TokenPosition,
};

verus! {

/// Version of the unit identity and lexical fingerprint contract.
pub const IDENTITY_CONTRACT: &'static str = "identity-v1";

/// Version of the evidence fields used to explain a comparison match.
pub const EVIDENCE_VERSION: &'static str = "evidence-v1";

/// Whether a byte is ASCII white space.
pub open spec fn layout_byte(byte: u8) -> bool {
    byte == 0x20 || byte == 0x09 || byte == 0x0A || byte == 0x0C || byte == 0x0D
}

/// Whether a byte can stand in an identifier.
pub open spec fn identifier_byte(byte: u8) -> bool {
    byte == 0x5F || 0x30 <= byte <= 0x39 || 0x41 <= byte <= 0x5A || 0x61 <= byte <= 0x7A || byte
        >= 0x80
}

/// Whether bytes start with others.
pub open spec fn opens_with(rest: Seq<u8>, start: Seq<u8>) -> bool {
    rest.len() >= start.len() && rest.take(start.len() as int) == start
}

/// How many bytes stand before the next line break.
pub open spec fn line_length(rest: Seq<u8>) -> nat
    decreases rest.len(),
{
    if rest.len() == 0 || rest[0] == 0x0A {
        0
    } else {
        1 + line_length(rest.skip(1))
    }
}

/// Whether the block comments of a language may hold others.
pub open spec fn nested_comments(language: Language) -> bool {
    language == Language::Rust
}

/// How many bytes belong to a block comment that `depth` others surround, or
/// that is about to open where `depth` is zero. Where comments do not nest, the
/// first closing mark ends the comment.
pub open spec fn block_length(rest: Seq<u8>, depth: nat, nests: bool) -> nat
    decreases rest.len(),
{
    if rest.len() == 0 {
        0
    } else if opens_with(rest, seq![0x2F, 0x2A]) && (nests || depth == 0) {
        2 + block_length(rest.skip(2), depth + 1, nests)
    } else if opens_with(rest, seq![0x2A, 0x2F]) {
        if depth <= 1 {
            2
        } else {
            2 + block_length(rest.skip(2), (depth - 1) as nat, nests)
        }
    } else {
        1 + block_length(rest.skip(1), depth, nests)
    }
}

/// How many bytes a literal goes on for, with its closing delimiter.
pub open spec fn literal_length(rest: Seq<u8>, delimiter: Seq<u8>, escaped: bool) -> nat
    decreases rest.len(),
{
    if rest.len() == 0 {
        0
    } else if escaped {
        1 + literal_length(rest.skip(1), delimiter, false)
    } else if rest[0] == 0x5C {
        1 + literal_length(rest.skip(1), delimiter, true)
    } else if opens_with(rest, delimiter) {
        delimiter.len()
    } else {
        1 + literal_length(rest.skip(1), delimiter, false)
    }
}

/// How many hash signs stand at the start.
pub open spec fn hash_count(rest: Seq<u8>) -> nat
    decreases rest.len(),
{
    if rest.len() == 0 || rest[0] != 0x23 {
        0
    } else {
        1 + hash_count(rest.skip(1))
    }
}

/// How many bytes a raw literal goes on for, with its closing quote and hashes.
pub open spec fn raw_length(rest: Seq<u8>, hashes: nat) -> nat
    decreases rest.len(),
{
    if rest.len() == 0 {
        0
    } else if rest[0] == 0x22 && hash_count(rest.skip(1)) >= hashes {
        1 + hashes
    } else {
        1 + raw_length(rest.skip(1), hashes)
    }
}

/// Whether a language writes comments as C does.
pub open spec fn slash_comments(language: Language) -> bool {
    language != Language::Python
}

/// How many bytes of layout stand at the start: white space or a comment.
pub open spec fn layout_length(rest: Seq<u8>, language: Language) -> nat {
    if rest.len() == 0 {
        0
    } else if layout_byte(rest[0]) {
        1
    } else if slash_comments(language) && opens_with(rest, seq![0x2F, 0x2F]) {
        line_length(rest)
    } else if slash_comments(language) && opens_with(rest, seq![0x2F, 0x2A]) {
        block_length(rest, 0, nested_comments(language))
    } else if language == Language::Python && rest[0] == 0x23 {
        line_length(rest)
    } else {
        0
    }
}

/// The prefix of a raw literal: `r`, `br` or `cr`.
pub open spec fn raw_prefix(rest: Seq<u8>) -> nat {
    if rest.len() > 0 && rest[0] == 0x72 {
        1
    } else if rest.len() > 1 && (rest[0] == 0x62 || rest[0] == 0x63) && rest[1] == 0x72 {
        2
    } else {
        0
    }
}

/// How long the raw literal at the start is; zero where there is none.
pub open spec fn raw_literal(rest: Seq<u8>, language: Language) -> nat {
    let prefix = raw_prefix(rest);
    let hashes = hash_count(rest.skip(prefix as int));
    if language == Language::Rust && prefix > 0 && rest.len() > prefix + hashes && rest[(prefix
        + hashes) as int] == 0x22 {
        prefix + hashes + 1 + raw_length(rest.skip((prefix + hashes + 1) as int), hashes)
    } else {
        0
    }
}

/// Where the closing quote of a Unicode escape ends, from within its braces on.
pub open spec fn escape_end(rest: Seq<u8>, cursor: int) -> int
    decreases rest.len() - cursor,
{
    if cursor < 0 || cursor >= rest.len() || rest[cursor] == 0x7D {
        cursor + 2
    } else {
        escape_end(rest, cursor + 1)
    }
}

/// How long the Rust character literal at the start is; zero where there is
/// none. Lifetimes and labels begin with a single quote too.
pub open spec fn char_length(rest: Seq<u8>) -> int {
    if !char_literal(rest, 0) {
        0
    } else if rest[1] != 0x5C {
        match character_width(rest[1]) {
            Some(width) => width as int + 2,
            None => 0,
        }
    } else if rest[2] == 0x78 {
        6
    } else if rest[2] == 0x75 {
        escape_end(rest, 4)
    } else {
        4
    }
}

/// The delimiter of the quoted literal at the start; empty where there is none.
/// A single quote is none in Rust.
pub open spec fn quote_delimiter(rest: Seq<u8>, language: Language) -> Seq<u8> {
    if rest.len() == 0 {
        Seq::empty()
    } else if rest[0] == 0x60 && (language == Language::JavaScript || language
        == Language::TypeScript) {
        seq![0x60]
    } else if rest[0] == 0x22 || (rest[0] == 0x27 && language != Language::Rust) {
        if language == Language::Python && opens_with(rest, seq![rest[0], rest[0], rest[0]]) {
            seq![rest[0], rest[0], rest[0]]
        } else {
            seq![rest[0]]
        }
    } else {
        Seq::empty()
    }
}

/// How many identifier bytes stand at the start.
pub open spec fn identifier_length(rest: Seq<u8>) -> nat
    decreases rest.len(),
{
    if rest.len() == 0 || !identifier_byte(rest[0]) {
        0
    } else {
        1 + identifier_length(rest.skip(1))
    }
}

/// How long the lexeme at the start is. Punctuation is one byte at a time.
pub open spec fn lexeme_length(rest: Seq<u8>, language: Language) -> nat {
    let delimiter = quote_delimiter(rest, language);
    if raw_literal(rest, language) > 0 {
        raw_literal(rest, language)
    } else if language == Language::Rust && char_length(rest) > 0 {
        char_length(rest) as nat
    } else if delimiter.len() > 0 {
        delimiter.len() + literal_length(rest.skip(delimiter.len() as int), delimiter, false)
    } else if identifier_length(rest) > 0 {
        identifier_length(rest)
    } else {
        1
    }
}

/// Whether a character literal of Rust would be misread if it were taken apart:
/// where it holds white space or the mark that opens a text.
pub open spec fn indivisible(literal: Seq<u8>) -> bool {
    layout_byte(literal[1]) || literal[1] == 0x22 || (literal[1] == 0x5C && literal[2] == 0x22)
}

/// How long the first part of a lexeme that is taken apart is.
pub open spec fn word_length(rest: Seq<u8>) -> nat {
    if identifier_length(rest) > 0 {
        identifier_length(rest)
    } else {
        1
    }
}

/// Bytes taken apart into identifiers and punctuation.
pub open spec fn words(rest: Seq<u8>) -> Seq<Seq<u8>>
    decreases rest.len(),
{
    if rest.len() == 0 || word_length(rest) > rest.len() {
        Seq::empty()
    } else {
        let length = word_length(rest) as int;
        seq![rest.take(length)] + words(rest.skip(length))
    }
}

/// What a lexeme counts as: itself, or the parts of a character literal of Rust.
pub open spec fn pieces(lexeme: Seq<u8>, language: Language) -> Seq<Seq<u8>> {
    if language == Language::Rust && lexeme.len() > 2 && lexeme[0] == 0x27 && !indivisible(lexeme) {
        words(lexeme)
    } else {
        seq![lexeme]
    }
}

/// The lexemes of source, without layout.
pub open spec fn lexemes(rest: Seq<u8>, language: Language) -> Seq<Seq<u8>>
    decreases rest.len(),
{
    if rest.len() == 0 {
        Seq::empty()
    } else if 0 < layout_length(rest, language) <= rest.len() {
        lexemes(rest.skip(layout_length(rest, language) as int), language)
    } else if 0 < lexeme_length(rest, language) <= rest.len() {
        let length = lexeme_length(rest, language) as int;
        pieces(rest.take(length), language) + lexemes(rest.skip(length), language)
    } else {
        Seq::empty()
    }
}

/// `held` with lexemes behind it, a unit separator before each but the first.
pub open spec fn separated(held: Seq<u8>, items: Seq<Seq<u8>>) -> Seq<u8>
    decreases items.len(),
{
    if items.len() == 0 {
        held
    } else {
        separated(
            (if held.len() == 0 {
                held
            } else {
                held.push(0x1F)
            }) + items[0],
            items.skip(1),
        )
    }
}

/// Source without layout, with a separator between each two lexemes.
pub open spec fn canonical(source: Seq<u8>, language: Language) -> Seq<u8> {
    separated(Seq::empty(), lexemes(source, language))
}

pub(crate) fn is_layout(byte: u8) -> (answer: bool)
    ensures
        answer == layout_byte(byte),
{
    byte == 0x20 || byte == 0x09 || byte == 0x0A || byte == 0x0C || byte == 0x0D
}

fn is_identifier_byte(byte: u8) -> (answer: bool)
    ensures
        answer == identifier_byte(byte),
{
    byte == 0x5F || (0x30 <= byte && byte <= 0x39) || (0x41 <= byte && byte <= 0x5A) || (0x61
        <= byte && byte <= 0x7A) || byte >= 0x80
}

pub(crate) fn opens_with_pair(bytes: &[u8], index: usize, first: u8, second: u8) -> (answer: bool)
    requires
        index <= bytes@.len(),
    ensures
        answer == opens_with(bytes@.skip(index as int), seq![first, second]),
{
    let rest: usize = bytes.len() - index;
    let ghost tail = bytes@.skip(index as int);
    if rest >= 2 && bytes[index] == first && bytes[index + 1] == second {
        assert(tail.take(2) =~= seq![first, second]);
        true
    } else {
        proof {
            if tail.len() >= 2 {
                assert(tail.take(2)[0] == bytes@[index as int]);
                assert(tail.take(2)[1] == bytes@[index + 1]);
            }
        }
        false
    }
}

fn skip_line_comment(bytes: &[u8], start: usize) -> (end: usize)
    requires
        start <= bytes@.len(),
    ensures
        start <= end <= bytes@.len(),
        end - start == line_length(bytes@.skip(start as int)),
{
    let mut index: usize = start;
    while index < bytes.len() && bytes[index] != 0x0A
        invariant
            start <= index <= bytes@.len(),
            index - start + line_length(bytes@.skip(index as int)) == line_length(
                bytes@.skip(start as int),
            ),
        decreases bytes@.len() - index,
    {
        assert(bytes@.skip(index as int).skip(1) =~= bytes@.skip(index + 1));
        index += 1;
    }
    index
}

fn skip_block_comment(bytes: &[u8], start: usize, nests: bool) -> (end: usize)
    requires
        start <= bytes@.len(),
    ensures
        start <= end <= bytes@.len(),
        end - start == block_length(bytes@.skip(start as int), 0, nests),
{
    let mut depth: usize = 0;
    let mut index: usize = start;
    while index < bytes.len()
        invariant
            start <= index <= bytes@.len(),
            depth <= index - start,
            index - start + block_length(bytes@.skip(index as int), depth as nat, nests)
                == block_length(bytes@.skip(start as int), 0, nests),
        decreases bytes@.len() - index,
    {
        let ghost tail = bytes@.skip(index as int);
        assert(tail.skip(1) =~= bytes@.skip(index + 1));
        if opens_with_pair(bytes, index, 0x2F, 0x2A) && (nests || depth == 0) {
            assert(tail.skip(2) =~= bytes@.skip(index + 2));
            depth += 1;
            index += 2;
        } else if opens_with_pair(bytes, index, 0x2A, 0x2F) {
            assert(tail.skip(2) =~= bytes@.skip(index + 2));
            index += 2;
            if depth <= 1 {
                return index;
            }
            depth -= 1;
        } else {
            index += 1;
        }
    }
    index
}

proof fn lemma_char_literal_moves(bytes: Seq<u8>, start: int)
    requires
        0 <= start <= bytes.len(),
    ensures
        char_literal(bytes.skip(start), 0) == char_literal(bytes, start),
{
    let tail = bytes.skip(start);
    assert forall|index: int| index >= 0 implies #[trigger] byte_at(tail, index) == byte_at(
        bytes,
        start + index,
    ) by {}
    assert(byte_at(tail, 0) == byte_at(bytes, start + 0));
    assert(byte_at(tail, 1) == byte_at(bytes, start + 1));
    assert(byte_at(tail, 2) == byte_at(bytes, start + 2));
    assert(byte_at(tail, 3) == byte_at(bytes, start + 3));
    assert(byte_at(tail, 4) == byte_at(bytes, start + 4));
    assert(byte_at(tail, 5) == byte_at(bytes, start + 5));
    lemma_unicode_rest_moves(bytes, start, 4, false);
    if tail.len() > 1 {
        if let Some(width) = character_width(tail[1]) {
            if 1 + width <= tail.len() {
                assert(tail.subrange(1, 1 + width as int) =~= bytes.subrange(
                    start + 1,
                    start + 1 + width,
                ));
            }
            assert(byte_at(tail, 1 + width as int) == byte_at(bytes, start + (1 + width)));
        }
    }
}

proof fn lemma_unicode_rest_moves(bytes: Seq<u8>, start: int, cursor: int, has_digit: bool)
    requires
        0 <= start <= bytes.len(),
        0 <= cursor,
    ensures
        unicode_rest(bytes.skip(start), cursor, has_digit) == unicode_rest(
            bytes,
            start + cursor,
            has_digit,
        ),
    decreases bytes.len() - start - cursor,
{
    let tail = bytes.skip(start);
    if cursor < tail.len() {
        assert(tail[cursor] == bytes[start + cursor]);
        assert(byte_at(tail, cursor + 1) == byte_at(bytes, start + cursor + 1));
        lemma_unicode_rest_moves(bytes, start, cursor + 1, has_digit);
        lemma_unicode_rest_moves(bytes, start, cursor + 1, true);
    }
}

proof fn lemma_escape_end(rest: Seq<u8>, cursor: int, has_digit: bool)
    requires
        unicode_rest(rest, cursor, has_digit),
    ensures
        cursor + 2 <= escape_end(rest, cursor) <= rest.len(),
    decreases rest.len() - cursor,
{
    if rest[cursor] != 0x7D {
        if rest[cursor] == 0x5F {
            lemma_escape_end(rest, cursor + 1, has_digit);
        } else {
            lemma_escape_end(rest, cursor + 1, true);
        }
    }
}

fn find_escape_end(bytes: &[u8], start: usize) -> (end: usize)
    requires
        start + 4 <= bytes@.len(),
        unicode_rest(bytes@.skip(start as int), 4, false),
    ensures
        end - start == escape_end(bytes@.skip(start as int), 4),
        start < end <= bytes@.len(),
{
    let ghost tail = bytes@.skip(start as int);
    proof {
        lemma_escape_end(tail, 4, false);
    }
    let limit: usize = bytes.len();
    let mut cursor: usize = start + 4;
    while cursor < limit && bytes[cursor] != 0x7D
        invariant
            start + 4 <= cursor <= bytes@.len(),
            limit == bytes@.len(),
            tail == bytes@.skip(start as int),
            escape_end(tail, 4) == escape_end(tail, cursor - start),
            escape_end(tail, 4) <= tail.len(),
        decreases bytes@.len() - cursor,
    {
        assert(tail[cursor - start] == bytes@[cursor as int]);
        cursor += 1;
    }
    if cursor < bytes.len() {
        assert(tail[cursor - start] == bytes@[cursor as int]);
    }
    cursor + 2
}

fn char_literal_end(bytes: &[u8], start: usize) -> (end: usize)
    requires
        start < bytes@.len(),
    ensures
        start <= end <= bytes@.len(),
        end - start == char_length(bytes@.skip(start as int)),
{
    let ghost tail = bytes@.skip(start as int);
    proof {
        lemma_char_literal_moves(bytes@, start as int);
    }
    let limit: usize = bytes.len();
    if !looks_like_char_literal(bytes, start) {
        return start;
    }
    assert(byte_at(tail, 1) is Some && start + 2 <= limit);
    let first: u8 = bytes[start + 1];
    assert(tail[1] == first);
    if first != 0x5C {
        return if first <= 0x7F {
            start + 3
        } else if first <= 0xDF {
            start + 4
        } else if first <= 0xEF {
            start + 5
        } else {
            start + 6
        };
    }
    assert(byte_at(tail, 2) is Some);
    let escape: u8 = bytes[start + 2];
    assert(tail[2] == escape);
    if escape == 0x78 {
        start + 6
    } else if escape == 0x75 {
        find_escape_end(bytes, start)
    } else {
        start + 4
    }
}

fn quote_length(bytes: &[u8], start: usize, language: Language) -> (length: usize)
    requires
        start < bytes@.len(),
    ensures
        length <= 3,
        start + length <= bytes@.len(),
        quote_delimiter(bytes@.skip(start as int), language) == bytes@.subrange(
            start as int,
            start + length,
        ),
{
    let ghost tail = bytes@.skip(start as int);
    let quote: u8 = bytes[start];
    assert(tail[0] == quote);
    if quote == 0x60 && language.is_javascript_family() {
        assert(bytes@.subrange(start as int, start + 1) =~= seq![quote]);
        return 1;
    }
    if quote == 0x22 || (quote == 0x27 && language != Language::Rust) {
        let triple: bool = language == Language::Python && bytes.len() - start >= 3 && bytes[start
            + 1] == quote && bytes[start + 2] == quote;
        proof {
            if tail.len() >= 3 {
                assert(tail.take(3)[1] == bytes@[start + 1]);
                assert(tail.take(3)[2] == bytes@[start + 2]);
                if triple {
                    assert(tail.take(3) =~= seq![quote, quote, quote]);
                }
            }
        }
        if triple {
            assert(bytes@.subrange(start as int, start + 3) =~= seq![quote, quote, quote]);
            return 3;
        }
        assert(bytes@.subrange(start as int, start + 1) =~= seq![quote]);
        return 1;
    }
    assert(bytes@.subrange(start as int, start as int) =~= Seq::<u8>::empty());
    0
}

fn repeats_delimiter(bytes: &[u8], index: usize, start: usize, length: usize) -> (answer: bool)
    requires
        index <= bytes@.len(),
        start + length <= bytes@.len(),
    ensures
        answer == opens_with(
            bytes@.skip(index as int),
            bytes@.subrange(start as int, start + length),
        ),
{
    let ghost tail = bytes@.skip(index as int);
    let ghost delimiter = bytes@.subrange(start as int, start + length);
    if bytes.len() - index < length {
        return false;
    }
    let limit: usize = bytes.len();
    let mut place: usize = 0;
    while place < length
        invariant
            place <= length,
            limit == bytes@.len(),
            length <= limit - index,
            start + length <= limit,
            tail == bytes@.skip(index as int),
            delimiter == bytes@.subrange(start as int, start + length),
            forall|earlier: int| 0 <= earlier < place ==> tail[earlier] == delimiter[earlier],
        decreases length - place,
    {
        if bytes[index + place] != bytes[start + place] {
            assert(tail.take(length as int)[place as int] != delimiter[place as int]);
            return false;
        }
        place += 1;
    }
    assert(tail.take(length as int) =~= delimiter);
    true
}

fn quoted_literal_end(bytes: &[u8], start: usize, length: usize) -> (end: usize)
    requires
        0 < length,
        start + length <= bytes@.len(),
    ensures
        start + length <= end <= bytes@.len(),
        end - start - length == literal_length(
            bytes@.skip(start + length),
            bytes@.subrange(start as int, start + length),
            false,
        ),
{
    let ghost delimiter = bytes@.subrange(start as int, start + length);
    let limit: usize = bytes.len();
    let mut index: usize = start + length;
    let mut escaped: bool = false;
    while index < limit
        invariant
            0 < length,
            limit == bytes@.len(),
            start + length <= index <= limit,
            delimiter == bytes@.subrange(start as int, start + length),
            index - start - length + literal_length(
                bytes@.skip(index as int),
                delimiter,
                escaped,
            ) == literal_length(bytes@.skip(start + length), delimiter, false),
        decreases bytes@.len() - index,
    {
        assert(bytes@.skip(index as int).skip(1) =~= bytes@.skip(index + 1));
        if escaped {
            escaped = false;
            index += 1;
        } else if bytes[index] == 0x5C {
            escaped = true;
            index += 1;
        } else if repeats_delimiter(bytes, index, start, length) {
            return index + length;
        } else {
            index += 1;
        }
    }
    index
}

pub(crate) fn count_hashes(bytes: &[u8], start: usize) -> (count: usize)
    requires
        start <= bytes@.len(),
    ensures
        start + count <= bytes@.len(),
        count == hash_count(bytes@.skip(start as int)),
{
    let mut count: usize = 0;
    while count < bytes.len() - start && bytes[start + count] == 0x23
        invariant
            start + count <= bytes@.len(),
            count + hash_count(bytes@.skip(start + count)) == hash_count(
                bytes@.skip(start as int),
            ),
        decreases bytes@.len() - start - count,
    {
        assert(bytes@.skip(start + count).skip(1) =~= bytes@.skip(start + count + 1));
        count += 1;
    }
    count
}

proof fn lemma_hash_count(rest: Seq<u8>)
    ensures
        hash_count(rest) <= rest.len(),
    decreases rest.len(),
{
    if rest.len() > 0 && rest[0] == 0x23 {
        lemma_hash_count(rest.skip(1));
    }
}

fn raw_literal_end(bytes: &[u8], start: usize, language: Language) -> (end: usize)
    requires
        start < bytes@.len(),
    ensures
        start <= end <= bytes@.len(),
        end - start == raw_literal(bytes@.skip(start as int), language),
{
    let ghost tail = bytes@.skip(start as int);
    if language != Language::Rust {
        return start;
    }
    let limit: usize = bytes.len() - start;
    let prefix: usize = if bytes[start] == 0x72 {
        1
    } else if limit > 1 && (bytes[start] == 0x62 || bytes[start] == 0x63) && bytes[start + 1]
        == 0x72 {
        2
    } else {
        0
    };
    assert(prefix == raw_prefix(tail));
    if prefix == 0 {
        return start;
    }
    assert(tail.skip(prefix as int) =~= bytes@.skip(start + prefix));
    let hashes: usize = count_hashes(bytes, start + prefix);
    let quote: usize = start + prefix + hashes;
    if quote >= bytes.len() || bytes[quote] != 0x22 {
        return start;
    }
    assert(tail.skip(prefix + hashes + 1) =~= bytes@.skip(quote + 1));
    let mut cursor: usize = quote + 1;
    while cursor < bytes.len()
        invariant
            quote + 1 <= cursor <= bytes@.len(),
            cursor - quote - 1 + raw_length(bytes@.skip(cursor as int), hashes as nat)
                == raw_length(bytes@.skip(quote + 1), hashes as nat),
            quote == start + prefix + hashes,
            raw_literal(bytes@.skip(start as int), language) == prefix + hashes + 1 + raw_length(
                bytes@.skip(quote + 1),
                hashes as nat,
            ),
        decreases bytes@.len() - cursor,
    {
        let ghost rest = bytes@.skip(cursor as int);
        assert(rest.skip(1) =~= bytes@.skip(cursor + 1));
        if bytes[cursor] == 0x22 {
            let found: usize = count_hashes(bytes, cursor + 1);
            if found >= hashes {
                return cursor + 1 + hashes;
            }
        }
        cursor += 1;
    }
    cursor
}

fn identifier_end(bytes: &[u8], start: usize) -> (end: usize)
    requires
        start <= bytes@.len(),
    ensures
        start <= end <= bytes@.len(),
        end - start == identifier_length(bytes@.skip(start as int)),
{
    let mut index: usize = start;
    while index < bytes.len() && is_identifier_byte(bytes[index])
        invariant
            start <= index <= bytes@.len(),
            index - start + identifier_length(bytes@.skip(index as int)) == identifier_length(
                bytes@.skip(start as int),
            ),
        decreases bytes@.len() - index,
    {
        assert(bytes@.skip(index as int).skip(1) =~= bytes@.skip(index + 1));
        index += 1;
    }
    index
}

fn layout_end(bytes: &[u8], start: usize, language: Language) -> (end: usize)
    requires
        start < bytes@.len(),
    ensures
        start <= end <= bytes@.len(),
        end - start == layout_length(bytes@.skip(start as int), language),
{
    if is_layout(bytes[start]) {
        return start + 1;
    }
    if language != Language::Python {
        if opens_with_pair(bytes, start, 0x2F, 0x2F) {
            return skip_line_comment(bytes, start);
        }
        if opens_with_pair(bytes, start, 0x2F, 0x2A) {
            return skip_block_comment(bytes, start, language == Language::Rust);
        }
    } else if bytes[start] == 0x23 {
        return skip_line_comment(bytes, start);
    }
    start
}

fn lexeme_end(bytes: &[u8], start: usize, language: Language) -> (end: usize)
    requires
        start < bytes@.len(),
    ensures
        start < end <= bytes@.len(),
        end - start == lexeme_length(bytes@.skip(start as int), language),
{
    let limit: usize = bytes.len();
    let raw: usize = raw_literal_end(bytes, start, language);
    if raw > start {
        return raw;
    }
    if language == Language::Rust {
        let end: usize = char_literal_end(bytes, start);
        if end > start {
            return end;
        }
    }
    let length: usize = quote_length(bytes, start, language);
    if length > 0 {
        assert(bytes@.skip(start as int).skip(length as int) =~= bytes@.skip(start + length));
        return quoted_literal_end(bytes, start, length);
    }
    let end: usize = identifier_end(bytes, start);
    if end > start {
        end
    } else {
        start + 1
    }
}

fn push_lexeme(bytes: &[u8], start: usize, end: usize, output: &mut Vec<u8>)
    requires
        start <= end <= bytes@.len(),
    ensures
        forall|rest: Seq<Seq<u8>>| #[trigger]
            separated(final(output)@, rest) == separated(
                old(output)@,
                seq![bytes@.subrange(start as int, end as int)] + rest,
            ),
{
    let ghost held = output@;
    let ghost lexeme = bytes@.subrange(start as int, end as int);
    if output.len() > 0 {
        output.push(0x1F);
    }
    let ghost before = output@;
    let mut place: usize = start;
    while place < end
        invariant
            start <= place <= end <= bytes@.len(),
            output@ =~= before + bytes@.subrange(start as int, place as int),
        decreases end - place,
    {
        output.push(bytes[place]);
        place += 1;
    }
    assert forall|rest: Seq<Seq<u8>>| #[trigger] separated(output@, rest) == separated(
        held,
        seq![lexeme] + rest,
    ) by {
        let whole = seq![lexeme] + rest;
        assert(whole.skip(1) =~= rest);
        assert(whole[0] == lexeme);
        assert(output@ =~= (if held.len() == 0 {
            held
        } else {
            held.push(0x1F)
        }) + lexeme);
    }
}

fn word_end(bytes: &[u8], start: usize, end: usize) -> (next: usize)
    requires
        start < end <= bytes@.len(),
    ensures
        start < next <= end,
        next - start == word_length(bytes@.subrange(start as int, end as int)),
{
    let mut next: usize = start;
    while next < end && is_identifier_byte(bytes[next])
        invariant
            start <= next <= end <= bytes@.len(),
            next - start + identifier_length(bytes@.subrange(next as int, end as int))
                == identifier_length(bytes@.subrange(start as int, end as int)),
        decreases end - next,
    {
        assert(bytes@.subrange(next as int, end as int).skip(1) =~= bytes@.subrange(
            next + 1,
            end as int,
        ));
        next += 1;
    }
    if next > start {
        next
    } else {
        start + 1
    }
}

fn push_words(bytes: &[u8], start: usize, end: usize, output: &mut Vec<u8>)
    requires
        start <= end <= bytes@.len(),
    ensures
        forall|rest: Seq<Seq<u8>>| #[trigger]
            separated(final(output)@, rest) == separated(
                old(output)@,
                words(bytes@.subrange(start as int, end as int)) + rest,
            ),
{
    let ghost held = output@;
    let ghost whole = words(bytes@.subrange(start as int, end as int));
    let mut place: usize = start;
    while place < end
        invariant
            start <= place <= end <= bytes@.len(),
            forall|rest: Seq<Seq<u8>>| #[trigger]
                separated(output@, words(bytes@.subrange(place as int, end as int)) + rest)
                    == separated(held, whole + rest),
        decreases end - place,
    {
        let ghost tail = bytes@.subrange(place as int, end as int);
        let ghost before = output@;
        let next: usize = word_end(bytes, place, end);
        push_lexeme(bytes, place, next, output);
        let ghost shorter = bytes@.subrange(next as int, end as int);
        assert(tail.skip(next - place) =~= shorter);
        assert(tail.take(next - place) =~= bytes@.subrange(place as int, next as int));
        assert forall|rest: Seq<Seq<u8>>| #[trigger] separated(output@, words(shorter) + rest)
            == separated(held, whole + rest) by {
            assert(separated(output@, words(shorter) + rest) == separated(
                before,
                seq![bytes@.subrange(place as int, next as int)] + (words(shorter) + rest),
            ));
            assert(words(tail) + rest =~= seq![bytes@.subrange(place as int, next as int)] + (words(
                shorter,
            ) + rest));
            assert(separated(before, words(tail) + rest) == separated(held, whole + rest));
        }
        place = next;
    }
    assert forall|rest: Seq<Seq<u8>>| #[trigger] separated(output@, rest) == separated(
        held,
        whole + rest,
    ) by {
        let none = bytes@.subrange(place as int, end as int);
        assert(words(none) + rest =~= rest);
        assert(separated(output@, words(none) + rest) == separated(held, whole + rest));
    }
}

fn push_pieces(bytes: &[u8], start: usize, end: usize, language: Language, output: &mut Vec<u8>)
    requires
        start <= end <= bytes@.len(),
    ensures
        forall|rest: Seq<Seq<u8>>| #[trigger]
            separated(final(output)@, rest) == separated(
                old(output)@,
                pieces(bytes@.subrange(start as int, end as int), language) + rest,
            ),
{
    let apart: bool = language == Language::Rust && end - start > 2 && bytes[start] == 0x27 && !(
    is_layout(bytes[start + 1]) || bytes[start + 1] == 0x22 || (bytes[start + 1] == 0x5C
        && bytes[start + 2] == 0x22));
    if apart {
        push_words(bytes, start, end, output);
    } else {
        push_lexeme(bytes, start, end, output);
    }
}

fn canonical_tokens(bytes: &[u8], language: Language) -> (output: Vec<u8>)
    ensures
        output@ == canonical(bytes@, language),
{
    let mut output: Vec<u8> = Vec::new();
    let mut index: usize = 0;
    assert(bytes@.skip(0) =~= bytes@);
    while index < bytes.len()
        invariant
            index <= bytes@.len(),
            separated(output@, lexemes(bytes@.skip(index as int), language)) == canonical(
                bytes@,
                language,
            ),
        decreases bytes@.len() - index,
    {
        let ghost tail = bytes@.skip(index as int);
        let after_layout: usize = layout_end(bytes, index, language);
        if after_layout > index {
            assert(tail.skip(after_layout - index) =~= bytes@.skip(after_layout as int));
            index = after_layout;
        } else {
            let end: usize = lexeme_end(bytes, index, language);
            push_pieces(bytes, index, end, language, &mut output);
            assert(tail.take(end - index) =~= bytes@.subrange(index as int, end as int));
            assert(tail.skip(end - index) =~= bytes@.skip(end as int));
            index = end;
        }
    }
    assert(bytes@.skip(bytes@.len() as int) =~= Seq::<u8>::empty());
    output
}

/// One step of the 64-bit FNV-1a hash.
pub open spec fn hash_step(hash: u64, byte: u8) -> u64 {
    (hash ^ (byte as u64)).wrapping_mul(0x100000001b3)
}

/// The 64-bit FNV-1a hash of the first `count` bytes.
pub open spec fn hash_upto(bytes: Seq<u8>, count: nat) -> u64
    decreases count,
{
    if count == 0 {
        0xcbf29ce484222325
    } else {
        hash_step(hash_upto(bytes, (count - 1) as nat), bytes[count - 1])
    }
}

/// The 64-bit FNV-1a hash of bytes.
pub open spec fn hash_of(bytes: Seq<u8>) -> u64 {
    hash_upto(bytes, bytes.len())
}

fn fnv1a64(bytes: &[u8]) -> (hash: u64)
    ensures
        hash == hash_of(bytes@),
{
    let mut hash: u64 = 0xcbf29ce484222325;
    let mut index: usize = 0;
    while index < bytes.len()
        invariant
            index <= bytes@.len(),
            hash == hash_upto(bytes@, index as nat),
        decreases bytes@.len() - index,
    {
        hash = (hash ^ (bytes[index] as u64)).wrapping_mul(0x100000001b3);
        index += 1;
    }
    hash
}

/// The hexadecimal digit of a number below sixteen.
pub open spec fn hex_digit(value: nat) -> char {
    if value < 10 {
        crate::text::digit(value)
    } else if value == 10 {
        'a'
    } else if value == 11 {
        'b'
    } else if value == 12 {
        'c'
    } else if value == 13 {
        'd'
    } else if value == 14 {
        'e'
    } else {
        'f'
    }
}

/// The last `count` hexadecimal digits of a number.
pub open spec fn hex_digits(value: nat, count: nat) -> Seq<char>
    decreases count,
{
    if count == 0 {
        Seq::empty()
    } else {
        hex_digits(value / 16, (count - 1) as nat).push(hex_digit(value % 16))
    }
}

fn hex_digit_of(value: u64) -> (character: char)
    requires
        value < 16,
    ensures
        character == hex_digit(value as nat),
{
    match value {
        0 => '0',
        1 => '1',
        2 => '2',
        3 => '3',
        4 => '4',
        5 => '5',
        6 => '6',
        7 => '7',
        8 => '8',
        9 => '9',
        10 => 'a',
        11 => 'b',
        12 => 'c',
        13 => 'd',
        14 => 'e',
        _ => 'f',
    }
}

fn push_hex_digits(text: &mut String, value: u64, count: usize)
    ensures
        final(text)@ == old(text)@ + hex_digits(value as nat, count as nat),
    decreases count,
{
    let ghost before = text@;
    if count > 0 {
        push_hex_digits(text, value / 16, count - 1);
        text.push(hex_digit_of(value % 16));
    }
    assert(text@ =~= before + hex_digits(value as nat, count as nat));
}

/// The part of source between two offsets, each moved back to the end of the
/// source where it lies behind it.
pub open spec fn source_part(source: Seq<u8>, start: int, end: int) -> Seq<u8> {
    let from = if start < source.len() {
        start
    } else {
        source.len() as int
    };
    let to = if end < source.len() {
        end
    } else {
        source.len() as int
    };
    if to < from {
        Seq::empty()
    } else {
        source.subrange(from, to)
    }
}

/// The fingerprint of source: of its lexemes alone.
pub open spec fn fingerprint_of(source: Seq<u8>, language: Language) -> Seq<char> {
    IDENTITY_CONTRACT@ + ":fnv1a64:"@ + hex_digits(
        hash_of(canonical(source, language)) as nat,
        16,
    )
}

/// Calculate a deterministic lexical fingerprint for a source range.
///
/// White space and comments are ignored, while token boundaries are retained,
/// so formatting-only edits do not look like body changes and `a b` does not
/// collide with `ab`. The compact FNV-1a representation keeps reports
/// dependency-free and stable across processes and platforms.
pub fn lexical_fingerprint(source: &str, start: usize, end: usize, language: Language) -> (text: String)
    ensures
        text@ == fingerprint_of(
            source_part(encode_utf8(source@), start as int, end as int),
            language,
        ),
{
    let bytes = source.as_bytes();
    let from: usize = if start < bytes.len() {
        start
    } else {
        bytes.len()
    };
    let to: usize = if end < bytes.len() {
        end
    } else {
        bytes.len()
    };
    let to: usize = if to < from {
        from
    } else {
        to
    };
    let part = vstd::slice::slice_subrange(bytes, from, to);
    assert(part@ =~= source_part(encode_utf8(source@), start as int, end as int));
    let tokens = canonical_tokens(part, language);
    let mut text = IDENTITY_CONTRACT.to_owned();
    text.append(":fnv1a64:");
    push_hex_digits(&mut text, fnv1a64(tokens.as_slice()), 16);
    text
}

/// Fingerprint a Python/Ruff byte range.
pub fn range_fingerprint(source: &str, start: usize, end: usize, language: Language) -> (text: String)
    ensures
        text@ == fingerprint_of(
            source_part(encode_utf8(source@), start as int, end as int),
            language,
        ),
{
    lexical_fingerprint(source, start, end, language)
}

/// What a snapshot id is the hash of.
pub open spec fn snapshot_seed(
    path: Seq<char>,
    language: Language,
    kind: Seq<char>,
    name: Seq<char>,
    start: Position,
    end: Position,
    declaration_fingerprint: Seq<char>,
    body_fingerprint: Seq<char>,
) -> Seq<char> {
    path + "\u{1f}"@ + language.serialized_text() + "\u{1f}"@ + kind + "\u{1f}"@ + name
        + "\u{1f}"@ + decimal(start.line as nat) + ":"@ + decimal(start.column as nat) + "-"@
        + decimal(end.line as nat) + ":"@ + decimal(end.column as nat) + "\u{1f}"@
        + declaration_fingerprint + "\u{1f}"@ + body_fingerprint
}

/// The snapshot id of a seed.
pub open spec fn snapshot_text(seed: Seq<char>) -> Seq<char> {
    IDENTITY_CONTRACT@ + ":snapshot:"@ + hex_digits(
        hash_of(encode_utf8(seed)) as nat,
        16,
    )
}

/// Produce a unique id for one report snapshot. Coordinates are part of it so
/// two legitimate duplicate declarations receive distinct ids without using a
/// mutable ordinal that could remap every later lambda or closure.
pub fn snapshot_id(
    path: &str,
    language: Language,
    kind: &str,
    name: &str,
    start: Position,
    end: Position,
    declaration_fingerprint: &str,
    body_fingerprint: &str,
) -> (id: String)
    ensures
        id@ == snapshot_text(
            snapshot_seed(
                path@,
                language,
                kind@,
                name@,
                start,
                end,
                declaration_fingerprint@,
                body_fingerprint@,
            ),
        ),
{
    let mut seed = path.to_owned();
    seed.append("\u{1f}");
    seed.append(language.serialized());
    seed.append("\u{1f}");
    seed.append(kind);
    seed.append("\u{1f}");
    seed.append(name);
    seed.append("\u{1f}");
    push_decimal(&mut seed, start.line);
    seed.append(":");
    push_decimal(&mut seed, start.column);
    seed.append("-");
    push_decimal(&mut seed, end.line);
    seed.append(":");
    push_decimal(&mut seed, end.column);
    seed.append("\u{1f}");
    seed.append(declaration_fingerprint);
    seed.append("\u{1f}");
    seed.append(body_fingerprint);
    let mut id = IDENTITY_CONTRACT.to_owned();
    id.append(":snapshot:");
    push_hex_digits(&mut id, fnv1a64(seed.as_str().as_bytes()), 16);
    id
}

/// The snapshot id of a function.
pub open spec fn function_snapshot(
    path: Seq<char>,
    language: Language,
    function: FunctionReport,
) -> Seq<char> {
    snapshot_text(
        snapshot_seed(
            path,
            language,
            function.kind.serialized_text(),
            function.name@,
            function.location.start,
            function.location.end,
            function.declaration_fingerprint@,
            function.body_fingerprint@,
        ),
    )
}

/// Whether a function is another but for its snapshot id.
pub open spec fn same_but_id(left: FunctionReport, right: FunctionReport) -> bool {
    left == (FunctionReport { snapshot_id: left.snapshot_id, ..right })
}

/// Fill snapshot ids after a frontend has collected its units. Frontends own
/// lexical evidence; the analyzer owns the display path that must participate
/// in a report-local id.
pub fn assign_snapshot_ids(path: &str, language: Language, functions: &mut Vec<FunctionReport>)
    ensures
        final(functions)@.len() == old(functions)@.len(),
        forall|index: int|
            0 <= index < final(functions)@.len() ==> same_but_id(
                #[trigger] final(functions)@[index],
                old(functions)@[index],
            ) && final(functions)@[index].snapshot_id@ == function_snapshot(
                path@,
                language,
                old(functions)@[index],
            ),
{
    let ghost held = functions@;
    let mut index: usize = 0;
    while index < functions.len()
        invariant
            index <= functions@.len(),
            functions@.len() == held.len(),
            forall|later: int| index <= later < held.len() ==> functions@[later] == held[later],
            forall|earlier: int|
                0 <= earlier < index ==> same_but_id(
                    #[trigger] functions@[earlier],
                    held[earlier],
                ) && functions@[earlier].snapshot_id@ == function_snapshot(
                    path@,
                    language,
                    held[earlier],
                ),
        decreases functions@.len() - index,
    {
        let function = &functions[index];
        let id = snapshot_id(
            path,
            language,
            function.kind.serialized(),
            function.name.as_str(),
            function.location.start,
            function.location.end,
            function.declaration_fingerprint.as_str(),
            function.body_fingerprint.as_str(),
        );
        functions[index].snapshot_id = id;
        index += 1;
    }
}

/// Where the line stands that begins once `left` more lines have ended, from a
/// place on.
pub open spec fn line_start(bytes: Seq<u8>, index: int, left: nat) -> Option<int>
    decreases bytes.len() - index,
{
    if left == 0 {
        Some(index)
    } else if index < 0 || index >= bytes.len() {
        None
    } else if bytes[index] == 0x0A {
        line_start(bytes, index + 1, (left - 1) as nat)
    } else {
        line_start(bytes, index + 1, left)
    }
}

/// The offset of a position. One past the end of the source is its end.
pub open spec fn offset_of(bytes: Seq<u8>, position: TokenPosition) -> int {
    let lines_before = if position.line > 0 {
        (position.line - 1) as nat
    } else {
        0
    };
    match line_start(bytes, 0, lines_before) {
        Some(start) => if start + position.column < bytes.len() {
            start + position.column
        } else {
            bytes.len() as int
        },
        None => bytes.len() as int,
    }
}

/// Convert a one-based line and zero-based byte column into a source byte
/// offset. Invalid positions clamp to the nearest valid line.
pub fn rust_offset(source: &str, position: TokenPosition) -> (offset: usize)
    ensures
        offset == offset_of(encode_utf8(source@), position),
{
    let bytes = source.as_bytes();
    let mut left: usize = if position.line > 0 {
        position.line - 1
    } else {
        0
    };
    let ghost lines_before = left as nat;
    let mut index: usize = 0;
    while left > 0 && index < bytes.len()
        invariant
            index <= bytes@.len(),
            line_start(bytes@, 0, lines_before) == line_start(bytes@, index as int, left as nat),
        decreases bytes@.len() - index,
    {
        if bytes[index] == 0x0A {
            left -= 1;
        }
        index += 1;
    }
    if left > 0 {
        return bytes.len();
    }
    if position.column < bytes.len() - index {
        index + position.column
    } else {
        bytes.len()
    }
}

/// Fingerprint a Rust span using its source coordinates.
pub fn rust_span_fingerprint(
    source: &str,
    start: TokenPosition,
    end: TokenPosition,
    language: Language,
) -> (text: String)
    ensures
        text@ == fingerprint_of(
            source_part(
                encode_utf8(source@),
                offset_of(encode_utf8(source@), start),
                offset_of(encode_utf8(source@), end),
            ),
            language,
        ),
{
    lexical_fingerprint(source, rust_offset(source, start), rust_offset(source, end), language)
}

}
