//! What lexical fingerprints ignore, and what they keep.
use vstd::prelude::*;
use vstd::arithmetic::div_mod::{lemma_mul_mod_noop_left, lemma_mul_mod_noop_right, lemma_small_mod};
use vstd::utf8::{encode_utf8, is_ascii_chars, is_ascii_chars_encode_utf8, valid_utf8};
use crate::identity::{
    block_length, canonical, char_length, escape_end, fingerprint_of, hash_count, hash_of,
    hash_step, hash_upto, hex_digit, hex_digits, identifier_byte, identifier_length, layout_byte,
    layout_length, lexeme_length, lexemes, line_length, line_start, literal_length, nested_comments,
    offset_of, opens_with, pieces, quote_delimiter, raw_length, raw_literal, raw_prefix, separated,
    slash_comments, snapshot_seed, snapshot_text, word_length, words, IDENTITY_CONTRACT,
};
use crate::model::{Language, Position};
use crate::spans::{break_length, line_at, lines_from, source_lines, started_by, LineSpan};
use crate::text::{decimal, digit};
use crate::tokens::{
    byte_at, char_literal, character_width, plain_rest, token_position, unicode_rest,
};

verus! {

/// How many bytes the layout or the lexeme at the start takes up.
pub open spec fn next_length(rest: Seq<u8>, language: Language) -> nat {
    if layout_length(rest, language) > 0 {
        layout_length(rest, language)
    } else {
        lexeme_length(rest, language)
    }
}

/// Whether a place in source stands between lexemes and layout, not within
/// any of them. A character literal is one, whatever parts it counts as.
pub open spec fn between_lexemes(rest: Seq<u8>, place: nat, language: Language) -> bool
    decreases rest.len(),
{
    if place == 0 {
        true
    } else {
        let length = next_length(rest, language);
        &&& rest.len() > 0
        &&& 0 < length <= place
        &&& length <= rest.len()
        &&& between_lexemes(rest.skip(length as int), (place - length) as nat, language)
    }
}

/// Whether a byte can start layout.
spec fn parting(byte: u8, language: Language) -> bool {
    ||| layout_byte(byte)
    ||| slash_comments(language) && byte == 0x2F
    ||| language == Language::Python && byte == 0x23
}

/// Whether what follows the same bytes is layout in one case and anything in
/// the other.
spec fn followed(plain: Seq<u8>, spaced: Seq<u8>, language: Language) -> bool {
    plain.len() > 0 && spaced.len() > 0 && parting(spaced[0], language)
}

proof fn lemma_skip(front: Seq<u8>, back: Seq<u8>, count: int)
    requires
        0 <= count <= front.len(),
    ensures
        (front + back).skip(count) == front.skip(count) + back,
{
    assert((front + back).skip(count) =~= front.skip(count) + back);
}

proof fn lemma_opens(front: Seq<u8>, plain: Seq<u8>, spaced: Seq<u8>, start: Seq<u8>)
    requires
        start.len() <= front.len(),
    ensures
        opens_with(front + plain, start) == opens_with(front + spaced, start),
{
    assert((front + plain).take(start.len() as int) =~= front.take(start.len() as int));
    assert((front + spaced).take(start.len() as int) =~= front.take(start.len() as int));
}

proof fn lemma_line(front: Seq<u8>, plain: Seq<u8>, spaced: Seq<u8>)
    requires
        plain.len() > 0,
        spaced.len() > 0,
    ensures
        line_length(front + plain) < front.len() ==> line_length(front + spaced) == line_length(
            front + plain,
        ),
        line_length(front + plain) >= front.len() ==> line_length(front + spaced) == front.len()
            + line_length(spaced),
        line_length(front + plain) >= front.len() ==> line_length(front + plain) == front.len()
            + line_length(plain),
    decreases front.len(),
{
    if front.len() == 0 {
        assert(front + plain =~= plain);
        assert(front + spaced =~= spaced);
    } else if front[0] != 0x0A {
        lemma_skip(front, plain, 1);
        lemma_skip(front, spaced, 1);
        lemma_line(front.skip(1), plain, spaced);
    }
}

proof fn lemma_block(front: Seq<u8>, plain: Seq<u8>, spaced: Seq<u8>, depth: nat, nests: bool)
    requires
        plain.len() > 0,
        spaced.len() > 0,
        block_length(front + plain, depth, nests) <= front.len(),
    ensures
        block_length(front + spaced, depth, nests) == block_length(front + plain, depth, nests),
        front.len() >= 2,
    decreases front.len(),
{
    let opening: Seq<u8> = seq![0x2F, 0x2A];
    let closing: Seq<u8> = seq![0x2A, 0x2F];
    if front.len() == 0 {
        assert(front + plain =~= plain);
    } else if front.len() == 1 {
        lemma_skip(front, plain, 1);
        assert(front.skip(1) + plain =~= plain);
        assert(block_length(plain, depth, nests) > 0);
    } else {
        lemma_opens(front, plain, spaced, opening);
        lemma_opens(front, plain, spaced, closing);
        lemma_skip(front, plain, 2);
        lemma_skip(front, spaced, 2);
        lemma_skip(front, plain, 1);
        lemma_skip(front, spaced, 1);
        if opens_with(front + plain, opening) && (nests || depth == 0) {
            lemma_block(front.skip(2), plain, spaced, depth + 1, nests);
        } else if opens_with(front + plain, closing) {
            if depth > 1 {
                lemma_block(front.skip(2), plain, spaced, (depth - 1) as nat, nests);
            }
        } else {
            lemma_block(front.skip(1), plain, spaced, depth, nests);
        }
    }
}

proof fn lemma_literal(
    front: Seq<u8>,
    plain: Seq<u8>,
    spaced: Seq<u8>,
    delimiter: Seq<u8>,
    escaped: bool,
)
    requires
        plain.len() > 0,
        spaced.len() > 0,
        delimiter.len() > 0,
        literal_length(front + plain, delimiter, escaped) <= front.len(),
    ensures
        literal_length(front + spaced, delimiter, escaped) == literal_length(
            front + plain,
            delimiter,
            escaped,
        ),
        front.len() >= delimiter.len(),
    decreases front.len(),
{
    if front.len() == 0 {
        assert(front + plain =~= plain);
        assert(literal_length(plain, delimiter, escaped) > 0);
    } else {
        lemma_skip(front, plain, 1);
        lemma_skip(front, spaced, 1);
        if escaped {
            lemma_literal(front.skip(1), plain, spaced, delimiter, false);
        } else if front[0] == 0x5C {
            lemma_literal(front.skip(1), plain, spaced, delimiter, true);
        } else if opens_with(front + plain, delimiter) {
            lemma_opens(front, plain, spaced, delimiter);
        } else {
            lemma_literal(front.skip(1), plain, spaced, delimiter, false);
            lemma_opens(front, plain, spaced, delimiter);
        }
    }
}

proof fn lemma_hashes(front: Seq<u8>, plain: Seq<u8>, spaced: Seq<u8>)
    requires
        plain.len() > 0,
        spaced.len() > 0,
        spaced[0] != 0x23,
    ensures
        hash_count(front + plain) < front.len() ==> hash_count(front + spaced) == hash_count(
            front + plain,
        ),
        hash_count(front + plain) >= front.len() ==> hash_count(front + spaced) == front.len(),
    decreases front.len(),
{
    if front.len() == 0 {
        assert(front + plain =~= plain);
        assert(front + spaced =~= spaced);
    } else if front[0] == 0x23 {
        lemma_skip(front, plain, 1);
        lemma_skip(front, spaced, 1);
        lemma_hashes(front.skip(1), plain, spaced);
    }
}

proof fn lemma_raw(front: Seq<u8>, plain: Seq<u8>, spaced: Seq<u8>, hashes: nat)
    requires
        plain.len() > 0,
        spaced.len() > 0,
        spaced[0] != 0x23,
        raw_length(front + plain, hashes) <= front.len(),
    ensures
        raw_length(front + spaced, hashes) == raw_length(front + plain, hashes),
    decreases front.len(),
{
    if front.len() == 0 {
        assert(front + plain =~= plain);
    } else {
        lemma_skip(front, plain, 1);
        lemma_skip(front, spaced, 1);
        lemma_hashes(front.skip(1), plain, spaced);
        if !(front[0] == 0x22 && hash_count(front.skip(1) + plain) >= hashes) {
            lemma_raw(front.skip(1), plain, spaced, hashes);
        }
    }
}

proof fn lemma_identifier(
    front: Seq<u8>,
    plain: Seq<u8>,
    spaced: Seq<u8>,
    language: Language,
)
    requires
        followed(plain, spaced, language),
        identifier_length(front + plain) <= front.len(),
    ensures
        identifier_length(front + spaced) == identifier_length(front + plain),
    decreases front.len(),
{
    if front.len() == 0 {
        assert(front + plain =~= plain);
        assert(front + spaced =~= spaced);
    } else if identifier_byte(front[0]) {
        lemma_skip(front, plain, 1);
        lemma_skip(front, spaced, 1);
        lemma_identifier(front.skip(1), plain, spaced, language);
    }
}

proof fn lemma_raw_literal(
    front: Seq<u8>,
    plain: Seq<u8>,
    spaced: Seq<u8>,
    language: Language,
)
    requires
        followed(plain, spaced, language),
        front.len() > 0,
        raw_literal(front + plain, language) <= front.len(),
    ensures
        raw_literal(front + spaced, language) == raw_literal(front + plain, language),
{
    let first = front + plain;
    let second = front + spaced;
    let prefix = raw_prefix(second);
    if language == Language::Rust && prefix > 0 {
        assert(prefix <= front.len());
        assert(raw_prefix(first) == prefix);
        lemma_skip(front, plain, prefix as int);
        lemma_skip(front, spaced, prefix as int);
        let inner = front.skip(prefix as int);
        lemma_hashes(inner, plain, spaced);
        let hashes = hash_count(second.skip(prefix as int));
        let quote = prefix + hashes;
        assert(inner.len() == front.len() - prefix);
        if quote < front.len() {
            assert(hash_count(first.skip(prefix as int)) == hashes);
            assert(first[quote as int] == second[quote as int]);
            lemma_skip(front, plain, (quote + 1) as int);
            lemma_skip(front, spaced, (quote + 1) as int);
            if first[quote as int] == 0x22 {
                lemma_raw(front.skip((quote + 1) as int), plain, spaced, hashes);
            }
        } else {
            assert(second[front.len() as int] == spaced[0]);
        }
    } else if raw_literal(first, language) > 0 {
        assert(raw_prefix(first) > front.len() || raw_prefix(first) == raw_prefix(second));
    }
}

proof fn lemma_quote(front: Seq<u8>, plain: Seq<u8>, spaced: Seq<u8>, language: Language)
    requires
        followed(plain, spaced, language),
        front.len() > 0,
        quote_delimiter(front + plain, language).len() <= front.len(),
    ensures
        quote_delimiter(front + spaced, language) == quote_delimiter(front + plain, language),
{
    let first = front + plain;
    let second = front + spaced;
    let mark = front[0];
    assert(first[0] == mark && second[0] == mark);
    let triple: Seq<u8> = seq![mark, mark, mark];
    if front.len() >= 3 {
        lemma_opens(front, plain, spaced, triple);
    } else if mark == 0x22 || mark == 0x27 {
        if opens_with(second, triple) {
            assert(second.take(3)[front.len() as int] == spaced[0]);
        }
    }
}

/// Whether the lexeme at the start is a quote by itself that would become a
/// character literal with what follows.
spec fn quote_comes_open(front: Seq<u8>, spaced: Seq<u8>, language: Language) -> bool {
    language == Language::Rust && front.len() == 1 && front[0] == 0x27 && spaced.len() > 1
        && spaced[1] == 0x27
}

proof fn lemma_scalar_bytes(scalar: Seq<u8>, index: int)
    requires
        valid_utf8(scalar),
        scalar.len() > 0,
        character_width(scalar[0]) == Some(scalar.len()),
        0 < index < scalar.len(),
    ensures
        scalar[index] >= 0x80,
{
}

proof fn lemma_unicode_rest(
    front: Seq<u8>,
    plain: Seq<u8>,
    spaced: Seq<u8>,
    cursor: int,
    has_digit: bool,
)
    requires
        followed(plain, spaced, Language::Rust),
        0 <= cursor <= front.len(),
    ensures
        unicode_rest(front + spaced, cursor, has_digit) ==> unicode_rest(
            front + plain,
            cursor,
            has_digit,
        ),
        unicode_rest(front + plain, cursor, has_digit) && escape_end(front + plain, cursor)
            <= front.len() ==> unicode_rest(front + spaced, cursor, has_digit) && escape_end(
            front + spaced,
            cursor,
        ) == escape_end(front + plain, cursor),
    decreases front.len() - cursor,
{
    let first = front + plain;
    let second = front + spaced;
    if cursor < front.len() {
        assert(first[cursor] == front[cursor] && second[cursor] == front[cursor]);
        lemma_unicode_rest(front, plain, spaced, cursor + 1, has_digit);
        lemma_unicode_rest(front, plain, spaced, cursor + 1, true);
        if cursor + 1 == front.len() {
            assert(second[cursor + 1] == spaced[0]);
        } else {
            assert(first[cursor + 1] == second[cursor + 1]);
        }
    } else {
        assert(second[cursor] == spaced[0]);
        if unicode_rest(first, cursor, has_digit) {
            lemma_escape_grows(first, cursor);
        }
    }
}

proof fn lemma_escape_grows(rest: Seq<u8>, cursor: int)
    ensures
        escape_end(rest, cursor) >= cursor + 2,
    decreases rest.len() - cursor,
{
    if !(cursor < 0 || cursor >= rest.len() || rest[cursor] == 0x7D) {
        lemma_escape_grows(rest, cursor + 1);
    }
}

proof fn lemma_char(front: Seq<u8>, plain: Seq<u8>, spaced: Seq<u8>)
    requires
        followed(plain, spaced, Language::Rust),
        front.len() > 0,
        char_length(front + plain) <= front.len(),
        !quote_comes_open(front, spaced, Language::Rust),
    ensures
        char_length(front + spaced) == char_length(front + plain),
{
    let first = front + plain;
    let second = front + spaced;
    assert forall|index: int| 0 <= index < front.len() implies byte_at(first, index) == #[trigger]
        byte_at(second, index) by {}
    assert(byte_at(second, front.len() as int) == Some(spaced[0]));
    assert(byte_at(first, 0) == byte_at(second, 0));
    if front[0] == 0x27 {
        if front.len() == 1 {
            assert(byte_at(second, 1) == Some(spaced[0]));
            assert(second[1] == spaced[0]);
            if spaced.len() > 1 {
                assert(second[2] == spaced[1]);
            }
            if char_literal(first, 0) {
                lemma_escape_grows(first, 4);
            }
        } else {
            assert(byte_at(first, 1) == byte_at(second, 1));
            assert(first[1] == front[1] && second[1] == front[1]);
            if front[1] == 0x5C {
                lemma_escaped_char(front, plain, spaced);
            } else if let Some(count) = character_width(front[1]) {
                let width: int = count as int;
                if 1 + width < front.len() {
                    assert(byte_at(first, 1 + width) == byte_at(second, 1 + width));
                    assert(first.subrange(1, 1 + width) =~= second.subrange(1, 1 + width));
                } else if 1 + width == front.len() {
                    assert(byte_at(second, 1 + width) == Some(spaced[0]));
                } else if plain_rest(second, 1) {
                    let scalar = second.subrange(1, 1 + width);
                    assert(scalar[0] == front[1]);
                    assert(scalar[front.len() - 1] == spaced[0]);
                    lemma_scalar_bytes(scalar, front.len() - 1);
                }
            }
        }
    }
}

proof fn lemma_escaped_char(front: Seq<u8>, plain: Seq<u8>, spaced: Seq<u8>)
    requires
        followed(plain, spaced, Language::Rust),
        front.len() >= 2,
        front[0] == 0x27,
        front[1] == 0x5C,
        char_length(front + plain) <= front.len(),
    ensures
        char_length(front + spaced) == char_length(front + plain),
{
    let first = front + plain;
    let second = front + spaced;
    assert forall|index: int| 0 <= index < front.len() implies #[trigger] byte_at(first, index)
        == byte_at(second, index) by {}
    assert(byte_at(second, front.len() as int) == Some(spaced[0]));
    assert(byte_at(first, 0) == Some(0x27u8) && byte_at(second, 0) == Some(0x27u8));
    assert(byte_at(first, 1) == Some(0x5Cu8) && byte_at(second, 1) == Some(0x5Cu8));
    if front.len() == 2 {
        assert(byte_at(second, 2) == Some(spaced[0]));
        if char_literal(first, 0) {
            lemma_escape_grows(first, 4);
        }
    } else {
        assert(byte_at(first, 2) == byte_at(second, 2));
        assert(first[2] == front[2] && second[2] == front[2]);
        if front.len() == 3 {
            assert(byte_at(second, 3) == Some(spaced[0]));
        } else {
            assert(byte_at(first, 3) == byte_at(second, 3));
            if front.len() == 4 {
                assert(byte_at(second, 4) == Some(spaced[0]));
            } else {
                assert(byte_at(first, 4) == byte_at(second, 4));
                if front.len() == 5 {
                    assert(byte_at(second, 5) == Some(spaced[0]));
                } else {
                    assert(byte_at(first, 5) == byte_at(second, 5));
                }
            }
            lemma_unicode_rest(front, plain, spaced, 4, false);
        }
        if char_literal(first, 0) {
            lemma_escape_grows(first, 4);
        }
    }
}

proof fn lemma_lexeme(front: Seq<u8>, plain: Seq<u8>, spaced: Seq<u8>, language: Language)
    requires
        followed(plain, spaced, language),
        front.len() > 0,
        lexeme_length(front + plain, language) <= front.len(),
        !quote_comes_open(front, spaced, language),
    ensures
        lexeme_length(front + spaced, language) == lexeme_length(front + plain, language),
{
    let delimiter = quote_delimiter(front + plain, language);
    lemma_raw_literal(front, plain, spaced, language);
    if raw_literal(front + plain, language) == 0 {
        if language == Language::Rust {
            lemma_char(front, plain, spaced);
        }
        if !(language == Language::Rust && char_length(front + plain) > 0) {
            lemma_quote(front, plain, spaced, language);
            if delimiter.len() > 0 {
                lemma_skip(front, plain, delimiter.len() as int);
                lemma_skip(front, spaced, delimiter.len() as int);
                lemma_literal(
                    front.skip(delimiter.len() as int),
                    plain,
                    spaced,
                    delimiter,
                    false,
                );
            } else {
                lemma_identifier(front, plain, spaced, language);
            }
        }
    }
}

/// Whether the lexeme at the start is a slash by itself that would open a
/// comment with what follows.
spec fn slash_comes_open(front: Seq<u8>, spaced: Seq<u8>, language: Language) -> bool {
    slash_comments(language) && front.len() == 1 && front[0] == 0x2F && spaced.len() > 0
        && spaced[0] == 0x2F
}

proof fn lemma_layout(front: Seq<u8>, plain: Seq<u8>, spaced: Seq<u8>, language: Language)
    requires
        followed(plain, spaced, language),
        front.len() > 0,
        layout_length(front + plain, language) <= front.len(),
        !slash_comes_open(front, spaced, language),
    ensures
        layout_length(front + spaced, language) == layout_length(front + plain, language) || (
        layout_length(front + plain, language) == front.len() && line_comment(front, language)
            && layout_length(front + spaced, language) == front.len() + line_length(spaced)),
        layout_length(front + plain, language) == front.len() && layout_length(
            front + spaced,
            language,
        ) != front.len() ==> line_length(plain) == 0,
{
    let first = front + plain;
    let second = front + spaced;
    let line: Seq<u8> = seq![0x2F, 0x2F];
    let block: Seq<u8> = seq![0x2F, 0x2A];
    let nests = nested_comments(language);
    assert(first[0] == front[0] && second[0] == front[0]);
    lemma_line(front, plain, spaced);
    if front.len() >= 2 {
        lemma_opens(front, plain, spaced, line);
        lemma_opens(front, plain, spaced, block);
        assert(opens_with(first, line) ==> opens_with(front, line)) by {
            assert(first.take(2) =~= front.take(2));
        }
        if opens_with(first, block) && block_length(first, 0, nests) <= front.len() {
            lemma_block(front, plain, spaced, 0, nests);
        }
    } else {
        if opens_with(second, line) {
            assert(second.take(2)[1] == spaced[0]);
            assert(second.take(2)[0] == front[0]);
        }
        if opens_with(second, block) {
            assert(second.take(2)[1] == spaced[0]);
        }
        if opens_with(first, block) && block_length(first, 0, nests) <= front.len() {
            lemma_block(front, plain, spaced, 0, nests);
        }
        if opens_with(first, line) {
            assert(first.take(2)[1] == 0x2F);
            assert(first.take(2)[0] == 0x2F);
            lemma_skip(front, plain, 1);
            assert(front.skip(1) + plain =~= plain);
            assert(plain[0] == first[1]);
            assert(line_length(plain) > 0);
        }
    }
}

/// Whether bytes start as a comment that ends with its line.
pub open spec fn line_comment(rest: Seq<u8>, language: Language) -> bool {
    ||| slash_comments(language) && opens_with(rest, seq![0x2F, 0x2F])
    ||| language == Language::Python && rest.len() > 0 && rest[0] == 0x23
}

/// What stands last before a place in source: the lexeme or the layout that
/// ends there.
pub open spec fn last_piece(rest: Seq<u8>, place: nat, language: Language) -> Seq<u8>
    decreases rest.len(),
{
    let length = next_length(rest, language);
    if rest.len() == 0 || length == 0 || length > rest.len() || length >= place {
        rest.take(place as int)
    } else {
        last_piece(rest.skip(length as int), (place - length) as nat, language)
    }
}

/// Whether layout that is put in at the end of `front` runs together with what
/// stands there: a slash with a comment, a lone quote of Rust with white space
/// and another quote, or a line comment with a comment of several lines.
pub open spec fn runs_together(
    front: Seq<u8>,
    layout: Seq<u8>,
    back: Seq<u8>,
    language: Language,
) -> bool {
    let last = last_piece(front + back, front.len(), language);
    ||| slash_comments(language) && last == seq![0x2Fu8] && layout[0] == 0x2F
    ||| language == Language::Rust && last == seq![0x27u8] && layout.len() == 1 && back[0] == 0x27
    ||| line_comment(last, language) && !layout_byte(layout[0]) && layout.contains(0x0A)
}

proof fn lemma_line_through(layout: Seq<u8>, back: Seq<u8>)
    requires
        !layout.contains(0x0A),
        line_length(back) == 0,
    ensures
        line_length(layout + back) == layout.len(),
    decreases layout.len(),
{
    if layout.len() == 0 {
        assert(layout + back =~= back);
    } else {
        lemma_skip(layout, back, 1);
        assert forall|index: int| 0 <= index < layout.skip(1).len() implies layout.skip(1)[index]
            != 0x0A by {
            assert(layout[index + 1] == layout.skip(1)[index]);
        }
        assert(layout[0] != 0x0A);
        lemma_line_through(layout.skip(1), back);
    }
}

proof fn lemma_inserted(front: Seq<u8>, layout: Seq<u8>, back: Seq<u8>, language: Language)
    requires
        between_lexemes(front + back, front.len(), language),
        back.len() > 0,
        layout.len() > 0,
        layout_length(layout + back, language) == layout.len(),
        front.len() > 0 ==> !runs_together(front, layout, back, language),
    ensures
        lexemes(front + (layout + back), language) == lexemes(front + back, language),
    decreases front.len(),
{
    let spaced = layout + back;
    let first = front + back;
    let second = front + spaced;
    assert(spaced[0] == layout[0]);
    lemma_starts_layout(layout, back, language);
    assert(followed(back, spaced, language));
    assert(spaced.skip(layout.len() as int) =~= back);
    assert(lexemes(spaced, language) == lexemes(back, language));
    if front.len() == 0 {
        assert(first =~= back);
        assert(second =~= spaced);
    } else {
        let length = next_length(first, language);
        lemma_skip(front, back, length as int);
        lemma_skip(front, spaced, length as int);
        let inner = front.skip(length as int);
        let last = last_piece(first, front.len(), language);
        assert(inner.len() == front.len() - length);
        if length == front.len() {
            assert(last =~= front);
            assert(inner =~= Seq::<u8>::empty());
            assert(inner + back =~= back);
            assert(inner + spaced =~= spaced);
            if front.len() == 1 {
                assert(front =~= seq![front[0]]);
            }
        } else {
            assert(last == last_piece(inner + back, inner.len(), language));
        }
        assert(!slash_comes_open(front, spaced, language)) by {
            if slash_comes_open(front, spaced, language) {
                assert(length == 1);
            }
        }
        assert(!quote_comes_open(front, spaced, language)) by {
            if quote_comes_open(front, spaced, language) {
                assert(length == 1);
                if layout.len() == 1 {
                    assert(spaced[1] == back[0]);
                } else {
                    lemma_second_byte(layout, back, language);
                    assert(spaced[1] == layout[1]);
                }
            }
        }
        lemma_layout(front, back, spaced, language);
        if layout_length(first, language) > 0 {
            if layout_length(second, language) == length {
                if inner.len() > 0 {
                    lemma_inserted(inner, layout, back, language);
                }
            } else {
                if layout_byte(layout[0]) {
                    if layout[0] == 0x0A {
                        assert(line_length(spaced) == 0);
                    } else {
                        assert(layout.len() == 1);
                        assert(spaced.skip(1) =~= back);
                    }
                } else {
                    lemma_line_through(layout, back);
                }
                assert(second.skip((length + layout.len()) as int) =~= back);
            }
        } else {
            lemma_lexeme(front, back, spaced, language);
            if inner.len() > 0 {
                lemma_inserted(inner, layout, back, language);
            }
            assert(first.take(length as int) =~= front.take(length as int));
            assert(second.take(length as int) =~= front.take(length as int));
        }
    }
}

proof fn lemma_starts_layout(layout: Seq<u8>, back: Seq<u8>, language: Language)
    requires
        layout.len() > 0,
        layout_length(layout + back, language) == layout.len(),
    ensures
        parting(layout[0], language),
        layout_byte(layout[0]) ==> layout.len() == 1,
{
    let spaced = layout + back;
    assert(spaced[0] == layout[0]);
    if opens_with(spaced, seq![0x2F, 0x2F]) || opens_with(spaced, seq![0x2F, 0x2A]) {
        assert(spaced.take(2)[0] == 0x2F);
    }
}

proof fn lemma_second_byte(layout: Seq<u8>, back: Seq<u8>, language: Language)
    requires
        layout.len() > 1,
        slash_comments(language),
        layout_length(layout + back, language) == layout.len(),
    ensures
        layout[1] == 0x2F || layout[1] == 0x2A,
{
    let spaced = layout + back;
    assert(spaced[0] == layout[0] && spaced[1] == layout[1]);
    if opens_with(spaced, seq![0x2F, 0x2F]) {
        assert(spaced.take(2)[1] == 0x2F);
    }
    if opens_with(spaced, seq![0x2F, 0x2A]) {
        assert(spaced.take(2)[1] == 0x2A);
    }
}

/// White space and comments are ignored: where one is put in between the
/// lexemes of source, and does not run together with what stands before it, the
/// fingerprint stays what it was, so formatting-only edits do not look like
/// changes.
pub proof fn layout_between_lexemes_is_ignored(
    front: Seq<u8>,
    layout: Seq<u8>,
    back: Seq<u8>,
    language: Language,
)
    requires
        between_lexemes(front + back, front.len(), language),
        back.len() > 0,
        layout.len() > 0,
        layout_length(layout + back, language) == layout.len(),
        front.len() > 0 ==> !runs_together(front, layout, back, language),
    ensures
        fingerprint_of(front + layout + back, language) == fingerprint_of(front + back, language),
{
    lemma_inserted(front, layout, back, language);
    assert(front + layout + back =~= front + (layout + back));
}

/// Whether two sequences have one length and differ in one place.
pub open spec fn differ_once(left: Seq<u8>, right: Seq<u8>, place: int) -> bool {
    &&& left.len() == right.len()
    &&& 0 <= place < left.len()
    &&& left[place] != right[place]
    &&& forall|other: int|
        0 <= other < left.len() && other != place ==> #[trigger] left[other] == right[other]
}

proof fn lemma_product_undone(value: u64)
    ensures
        value.wrapping_mul(0x100000001b3).wrapping_mul(0xce965057aff6957b) == value,
{
    let word: int = 0x1_0000_0000_0000_0000;
    let prime: int = 0x100000001b3;
    let inverse: int = 0xce965057aff6957b;
    let x = value as int;
    assert((prime * inverse) % word == 1) by (nonlinear_arith)
        requires
            prime == 0x100000001b3,
            inverse == 0xce965057aff6957b,
            word == 0x1_0000_0000_0000_0000,
    ;
    lemma_mul_mod_noop_left(x * prime, inverse, word);
    assert((x * prime) * inverse == x * (prime * inverse)) by (nonlinear_arith);
    lemma_mul_mod_noop_right(x, prime * inverse, word);
    lemma_small_mod(value as nat, word as nat);
}

proof fn lemma_step_differs(left: u64, left_byte: u8, right: u64, right_byte: u8)
    requires
        (left == right) != (left_byte == right_byte),
    ensures
        hash_step(left, left_byte) != hash_step(right, right_byte),
{
    let a = left ^ (left_byte as u64);
    let b = right ^ (right_byte as u64);
    assert(a != b) by (bit_vector)
        requires
            (left == right) != (left_byte == right_byte),
            a == left ^ (left_byte as u64),
            b == right ^ (right_byte as u64),
    ;
    lemma_product_undone(a);
    lemma_product_undone(b);
}

proof fn lemma_hash_differs(left: Seq<u8>, right: Seq<u8>, place: int, count: nat)
    requires
        differ_once(left, right, place),
        count <= left.len(),
    ensures
        (hash_upto(left, count) == hash_upto(right, count)) == (count <= place),
    decreases count,
{
    if count > 0 {
        lemma_hash_differs(left, right, place, (count - 1) as nat);
        if count - 1 != place {
            assert(left[count - 1] == right[count - 1]);
        }
        if count > place {
            lemma_step_differs(
                hash_upto(left, (count - 1) as nat),
                left[count - 1],
                hash_upto(right, (count - 1) as nat),
                right[count - 1],
            );
        }
    }
}

/// Whether a character is a digit or one of the letters `a` to `f`.
pub open spec fn lower_hex(character: char) -> bool {
    '0' <= character <= '9' || 'a' <= character <= 'f'
}

proof fn lemma_hex_digits(value: nat, count: nat)
    ensures
        hex_digits(value, count).len() == count,
        forall|index: int|
            0 <= index < count ==> lower_hex(#[trigger] hex_digits(value, count)[index]),
    decreases count,
{
    if count > 0 {
        lemma_hex_digits(value / 16, (count - 1) as nat);
    }
}

proof fn lemma_hex_differs(left: nat, right: nat, count: nat)
    requires
        hex_digits(left, count) == hex_digits(right, count),
        left < power(count),
        right < power(count),
    ensures
        left == right,
    decreases count,
{
    if count > 0 {
        let a = hex_digits(left / 16, (count - 1) as nat);
        let b = hex_digits(right / 16, (count - 1) as nat);
        assert(a.push(hex_digit(left % 16)).drop_last() =~= a);
        assert(b.push(hex_digit(right % 16)).drop_last() =~= b);
        assert(a.push(hex_digit(left % 16)).last() == hex_digit(left % 16));
        assert(b.push(hex_digit(right % 16)).last() == hex_digit(right % 16));
        lemma_hex_differs(left / 16, right / 16, (count - 1) as nat);
    }
}

/// Sixteen to a power.
spec fn power(count: nat) -> nat
    decreases count,
{
    if count == 0 {
        1
    } else {
        16 * power((count - 1) as nat)
    }
}

/// Snapshot ids have one shape: a name, a version and sixteen lower-case
/// hexadecimal digits.
pub proof fn snapshot_ids_have_one_shape(seed: Seq<char>)
    ensures
        snapshot_text(seed).len() == "identity-v1:snapshot:"@.len() + 16,
        snapshot_text(seed).take("identity-v1:snapshot:"@.len() as int)
            == "identity-v1:snapshot:"@,
        forall|index: int|
            "identity-v1:snapshot:"@.len() <= index < snapshot_text(seed).len() ==> lower_hex(
                #[trigger] snapshot_text(seed)[index],
            ),
{
    let hash = hash_of(encode_utf8(seed)) as nat;
    lemma_hex_digits(hash, 16);
    reveal_strlit("identity-v1:snapshot:");
    reveal_strlit("identity-v1");
    reveal_strlit(":snapshot:");
    let start = IDENTITY_CONTRACT@ + ":snapshot:"@;
    assert(start =~= "identity-v1:snapshot:"@);
    assert(snapshot_text(seed).take(start.len() as int) =~= start);
    assert forall|index: int| start.len() <= index < snapshot_text(seed).len() implies lower_hex(
        #[trigger] snapshot_text(seed)[index],
    ) by {
        assert(snapshot_text(seed)[index] == hex_digits(hash, 16)[index - start.len()]);
    }
}

/// Seeds that differ in one byte, such as in one digit of a coordinate, have
/// distinct snapshot ids, so that two declarations alike in all else are told
/// apart.
pub proof fn near_snapshots_are_told_apart(first: Seq<char>, second: Seq<char>, place: int)
    requires
        differ_once(encode_utf8(first), encode_utf8(second), place),
    ensures
        snapshot_text(first) != snapshot_text(second),
{
    let left = encode_utf8(first);
    let right = encode_utf8(second);
    lemma_hash_differs(left, right, place, left.len());
    let a = hex_digits(hash_of(left) as nat, 16);
    let b = hex_digits(hash_of(right) as nat, 16);
    assert(power(16) == 0x1_0000_0000_0000_0000) by {
        reveal_with_fuel(power, 17);
    }
    if a == b {
        lemma_hex_differs(hash_of(left) as nat, hash_of(right) as nat, 16);
    }
    let start = IDENTITY_CONTRACT@ + ":snapshot:"@;
    lemma_hex_digits(hash_of(left) as nat, 16);
    lemma_hex_digits(hash_of(right) as nat, 16);
    assert(snapshot_text(first).skip(start.len() as int) =~= a);
    assert(snapshot_text(second).skip(start.len() as int) =~= b);
}

proof fn lemma_encoded_parts(left: Seq<char>, right: Seq<char>)
    ensures
        encode_utf8(left + right) == encode_utf8(left) + encode_utf8(right),
    decreases left.len(),
{
    if left.len() == 0 {
        assert(left + right =~= right);
        assert(encode_utf8(left) + encode_utf8(right) =~= encode_utf8(right));
    } else {
        lemma_encoded_parts(left.drop_first(), right);
        assert((left + right).drop_first() =~= left.drop_first() + right);
        assert(encode_utf8(left + right) =~= encode_utf8(left) + encode_utf8(right));
    }
}

/// Two declarations that are alike in all but one digit of the column that they
/// start in have distinct snapshot ids.
#[verifier::spinoff_prover]
#[verifier::rlimit(100)]
pub proof fn neighbours_in_a_line_are_told_apart(
    path: Seq<char>,
    language: Language,
    kind: Seq<char>,
    name: Seq<char>,
    first: Position,
    second: Position,
    end: Position,
    declaration: Seq<char>,
    body: Seq<char>,
)
    requires
        first.line == second.line,
        first.column != second.column,
        first.column / 10 == second.column / 10,
    ensures
        snapshot_text(snapshot_seed(path, language, kind, name, first, end, declaration, body))
            != snapshot_text(
            snapshot_seed(path, language, kind, name, second, end, declaration, body),
        ),
{
    let one = snapshot_seed(path, language, kind, name, first, end, declaration, body);
    let two = snapshot_seed(path, language, kind, name, second, end, declaration, body);
    let front = path + "\u{1f}"@ + language.serialized_text() + "\u{1f}"@ + kind + "\u{1f}"@
        + name + "\u{1f}"@ + decimal(first.line as nat) + ":"@ + tens(first.column as nat);
    let back = "-"@ + decimal(end.line as nat) + ":"@ + decimal(end.column as nat) + "\u{1f}"@
        + declaration + "\u{1f}"@ + body;
    let a = digit(first.column as nat % 10);
    let b = digit(second.column as nat % 10);
    assert(one =~= front + (seq![a] + back));
    assert(two =~= front + (seq![b] + back));
    lemma_encoded_parts(front, seq![a] + back);
    lemma_encoded_parts(front, seq![b] + back);
    lemma_encoded_parts(seq![a], back);
    lemma_encoded_parts(seq![b], back);
    lemma_digit_byte(a);
    lemma_digit_byte(b);
    assert(a != b);
    let place = encode_utf8(front).len() as int;
    let left = encode_utf8(one);
    let right = encode_utf8(two);
    assert(left =~= encode_utf8(front) + (seq![a as u8] + encode_utf8(back)));
    assert(right =~= encode_utf8(front) + (seq![b as u8] + encode_utf8(back)));
    assert(differ_once(left, right, place));
    near_snapshots_are_told_apart(one, two, place);
}

/// The digits of a number before its last.
spec fn tens(value: nat) -> Seq<char> {
    if value < 10 {
        Seq::empty()
    } else {
        decimal(value / 10)
    }
}

proof fn lemma_digit_byte(character: char)
    requires
        '0' <= character <= '9',
    ensures
        encode_utf8(seq![character]) == seq![character as u8],
{
    let single = seq![character];
    assert(is_ascii_chars(single));
    is_ascii_chars_encode_utf8(single);
    assert(single[0] as u8 == encode_utf8(single)[0]);
    assert(encode_utf8(single) =~= seq![character as u8]);
}

/// Lexemes one behind the other, a unit separator before each.
spec fn trailing(items: Seq<Seq<u8>>) -> Seq<u8>
    decreases items.len(),
{
    if items.len() == 0 {
        Seq::empty()
    } else {
        seq![0x1F] + items[0] + trailing(items.skip(1))
    }
}

/// Whether lexemes have content and hold no unit separator.
spec fn proper(items: Seq<Seq<u8>>) -> bool {
    forall|index: int|
        0 <= index < items.len() ==> (#[trigger] items[index]).len() > 0
            && !items[index].contains(0x1F)
}

proof fn lemma_separated(held: Seq<u8>, items: Seq<Seq<u8>>)
    requires
        held.len() > 0,
    ensures
        separated(held, items) == held + trailing(items),
    decreases items.len(),
{
    if items.len() > 0 {
        lemma_separated(held.push(0x1F) + items[0], items.skip(1));
    }
    assert(separated(held, items) =~= held + trailing(items));
}

proof fn lemma_same_front(left: Seq<u8>, left_rest: Seq<u8>, right: Seq<u8>, right_rest: Seq<u8>)
    requires
        left + left_rest == right + right_rest,
        !left.contains(0x1F),
        !right.contains(0x1F),
        left_rest.len() > 0 ==> left_rest[0] == 0x1F,
        right_rest.len() > 0 ==> right_rest[0] == 0x1F,
    ensures
        left == right,
        left_rest == right_rest,
{
    let whole = left + left_rest;
    let other = right + right_rest;
    if left.len() < right.len() {
        assert(whole[left.len() as int] == left_rest[0]);
        assert(other[left.len() as int] == right[left.len() as int]);
        assert(right.contains(right[left.len() as int]));
    } else if right.len() < left.len() {
        assert(other[right.len() as int] == right_rest[0]);
        assert(whole[right.len() as int] == left[right.len() as int]);
        assert(left.contains(left[right.len() as int]));
    }
    assert(left =~= whole.take(left.len() as int));
    assert(right =~= other.take(left.len() as int));
    assert(left_rest =~= whole.skip(left.len() as int));
    assert(right_rest =~= other.skip(left.len() as int));
}

proof fn lemma_same_trailing(left: Seq<Seq<u8>>, right: Seq<Seq<u8>>)
    requires
        proper(left),
        proper(right),
        trailing(left) == trailing(right),
    ensures
        left == right,
    decreases left.len(),
{
    if left.len() == 0 || right.len() == 0 {
        assert(trailing(left).len() == 0);
        assert(left =~= right);
    } else {
        let first = left[0] + trailing(left.skip(1));
        let second = right[0] + trailing(right.skip(1));
        assert(first =~= trailing(left).skip(1));
        assert(second =~= trailing(right).skip(1));
        lemma_same_front(left[0], trailing(left.skip(1)), right[0], trailing(right.skip(1)));
        assert(proper(left.skip(1)));
        assert(proper(right.skip(1)));
        lemma_same_trailing(left.skip(1), right.skip(1));
        assert(left =~= seq![left[0]] + left.skip(1));
        assert(right =~= seq![right[0]] + right.skip(1));
    }
}

proof fn lemma_clean_parts(rest: Seq<u8>, count: int)
    requires
        !rest.contains(0x1F),
        0 <= count <= rest.len(),
    ensures
        !rest.skip(count).contains(0x1F),
        !rest.take(count).contains(0x1F),
{
    if rest.skip(count).contains(0x1F) {
        let place = choose|place: int|
            0 <= place < rest.skip(count).len() && rest.skip(count)[place] == 0x1F;
        assert(rest[place + count] == 0x1F);
    }
    if rest.take(count).contains(0x1F) {
        let place = choose|place: int|
            0 <= place < rest.take(count).len() && rest.take(count)[place] == 0x1F;
        assert(rest[place] == 0x1F);
    }
}

proof fn lemma_proper_concat(left: Seq<Seq<u8>>, right: Seq<Seq<u8>>)
    requires
        proper(left),
        proper(right),
    ensures
        proper(left + right),
{
    let all = left + right;
    assert forall|index: int| 0 <= index < all.len() implies (#[trigger] all[index]).len() > 0
        && !all[index].contains(0x1F) by {
        if index < left.len() {
            assert(all[index] == left[index]);
        } else {
            assert(all[index] == right[index - left.len()]);
        }
    }
}

proof fn lemma_words_proper(rest: Seq<u8>)
    requires
        !rest.contains(0x1F),
    ensures
        proper(words(rest)),
    decreases rest.len(),
{
    if rest.len() > 0 && word_length(rest) <= rest.len() {
        let length = word_length(rest) as int;
        lemma_clean_parts(rest, length);
        lemma_words_proper(rest.skip(length));
        lemma_proper_concat(seq![rest.take(length)], words(rest.skip(length)));
    }
}

proof fn lemma_lexemes_proper(rest: Seq<u8>, language: Language)
    requires
        !rest.contains(0x1F),
    ensures
        proper(lexemes(rest, language)),
    decreases rest.len(),
{
    if rest.len() > 0 {
        let layout = layout_length(rest, language) as int;
        let length = lexeme_length(rest, language) as int;
        if 0 < layout <= rest.len() {
            lemma_clean_parts(rest, layout);
            lemma_lexemes_proper(rest.skip(layout), language);
        } else if 0 < length <= rest.len() {
            lemma_clean_parts(rest, length);
            lemma_lexemes_proper(rest.skip(length), language);
            lemma_words_proper(rest.take(length));
            lemma_proper_concat(
                pieces(rest.take(length), language),
                lexemes(rest.skip(length), language),
            );
        }
    }
}

/// Token boundaries are retained: two sources have the same canonical form
/// only where they have the same lexemes, so `a b` is not taken for `ab`.
pub proof fn token_boundaries_are_retained(left: Seq<u8>, right: Seq<u8>, language: Language)
    requires
        !left.contains(0x1F),
        !right.contains(0x1F),
        canonical(left, language) == canonical(right, language),
    ensures
        lexemes(left, language) == lexemes(right, language),
{
    let first = lexemes(left, language);
    let second = lexemes(right, language);
    lemma_lexemes_proper(left, language);
    lemma_lexemes_proper(right, language);
    if first.len() > 0 {
        assert(Seq::<u8>::empty() + first[0] =~= first[0]);
        lemma_separated(first[0], first.skip(1));
    }
    if second.len() > 0 {
        assert(Seq::<u8>::empty() + second[0] =~= second[0]);
        lemma_separated(second[0], second.skip(1));
    }
    if first.len() > 0 && second.len() > 0 {
        lemma_same_front(first[0], trailing(first.skip(1)), second[0], trailing(second.skip(1)));
        assert(proper(first.skip(1)));
        assert(proper(second.skip(1)));
        lemma_same_trailing(first.skip(1), second.skip(1));
        assert(first =~= seq![first[0]] + first.skip(1));
        assert(second =~= seq![second[0]] + second.skip(1));
    } else {
        assert(first =~= second);
    }
}

proof fn lemma_line_starts(bytes: Seq<u8>, index: int, start: int, place: int)
    requires
        0 <= start <= index <= bytes.len(),
        bytes.len() <= usize::MAX,
        0 <= place < lines_from(bytes, index, start, false).len(),
    ensures
        place == 0 ==> lines_from(bytes, index, start, false)[place].start == start,
        place > 0 ==> line_start(bytes, index, place as nat) == Some(
            lines_from(bytes, index, start, false)[place].start as int,
        ),
        place > 0 ==> lines_from(bytes, index, start, false)[place].start > index,
    decreases bytes.len() - index,
{
    let lines = lines_from(bytes, index, start, false);
    if index < bytes.len() {
        if bytes[index] == 0x0A {
            let rest = lines_from(bytes, index + 1, index + 1, false);
            assert(break_length(bytes, index, false) == 1);
            assert(lines == seq![LineSpan { start: start as usize, end: index as usize }] + rest);
            if place > 0 {
                assert(lines[place] == rest[place - 1]);
                lemma_line_starts(bytes, index + 1, index + 1, place - 1);
            }
        } else {
            lemma_line_starts(bytes, index + 1, start, place);
        }
    }
}

proof fn lemma_lines_rise(bytes: Seq<u8>, index: int, start: int, left: int, right: int)
    requires
        0 <= start <= index <= bytes.len(),
        bytes.len() <= usize::MAX,
        0 <= left < right < lines_from(bytes, index, start, false).len(),
    ensures
        lines_from(bytes, index, start, false)[left].start < lines_from(
            bytes,
            index,
            start,
            false,
        )[right].start,
    decreases bytes.len() - index,
{
    let lines = lines_from(bytes, index, start, false);
    if index < bytes.len() {
        if bytes[index] == 0x0A {
            let rest = lines_from(bytes, index + 1, index + 1, false);
            assert(break_length(bytes, index, false) == 1);
            assert(lines == seq![LineSpan { start: start as usize, end: index as usize }] + rest);
            assert(lines[right] == rest[right - 1]);
            if left > 0 {
                assert(lines[left] == rest[left - 1]);
                lemma_lines_rise(bytes, index + 1, index + 1, left - 1, right - 1);
            } else {
                lemma_line_starts(bytes, index + 1, index + 1, right - 1);
            }
        } else {
            lemma_lines_rise(bytes, index + 1, start, left, right);
        }
    }
}

proof fn lemma_started(lines: Seq<LineSpan>, offset: int, count: nat)
    requires
        count <= lines.len(),
        forall|left: int, right: int|
            0 <= left < right < lines.len() ==> (#[trigger] lines[left]).start < (
            #[trigger] lines[right]).start,
    ensures
        started_by(lines, offset, count) <= count,
        started_by(lines, offset, count) > 0 ==> lines[started_by(lines, offset, count)
            - 1].start <= offset,
        count > 0 && lines[count - 1].start <= offset ==> started_by(lines, offset, count)
            == count,
    decreases count,
{
    if count > 0 {
        lemma_started(lines, offset, (count - 1) as nat);
        if count > 1 {
            assert(lines[count - 2].start < lines[count - 1].start);
        }
    }
}

/// The line and the byte column of an offset lead back to the offset.
pub proof fn positions_lead_back_to_offsets(bytes: Seq<u8>, offset: usize)
    requires
        bytes.len() < usize::MAX,
        offset <= bytes.len(),
    ensures
        offset_of(bytes, token_position(source_lines(bytes, false), offset)) == offset,
{
    let lines = source_lines(bytes, false);
    assert forall|left: int, right: int| 0 <= left < right < lines.len() implies (
    #[trigger] lines[left]).start < (#[trigger] lines[right]).start by {
        lemma_lines_rise(bytes, 0, 0, left, right);
    }
    lemma_started(lines, offset as int, lines.len());
    let line = line_at(lines, offset as int);
    if lines.len() > 0 {
        lemma_line_starts(bytes, 0, 0, 0);
        lemma_first_started(lines, offset as int, lines.len());
        lemma_line_starts(bytes, 0, 0, line);
        lemma_line_count(bytes, 0, 0);
        assert(lines[line].start <= offset);
    } else {
        lemma_line_count(bytes, 0, 0);
    }
}

proof fn lemma_first_started(lines: Seq<LineSpan>, offset: int, count: nat)
    requires
        0 < count <= lines.len(),
        lines[0].start <= offset,
    ensures
        started_by(lines, offset, count) > 0,
    decreases count,
{
    if count > 1 {
        lemma_first_started(lines, offset, (count - 1) as nat);
    } else {
        assert(started_by(lines, offset, 0) == 0);
    }
}

proof fn lemma_line_count(bytes: Seq<u8>, index: int, start: int)
    requires
        0 <= start <= index <= bytes.len(),
        bytes.len() <= usize::MAX,
    ensures
        lines_from(bytes, index, start, false).len() <= bytes.len() - index + 1,
        lines_from(bytes, index, start, false).len() == 0 ==> start == bytes.len(),
    decreases bytes.len() - index,
{
    if index < bytes.len() {
        if bytes[index] == 0x0A {
            assert(break_length(bytes, index, false) == 1);
            lemma_line_count(bytes, index + 1, index + 1);
        } else {
            lemma_line_count(bytes, index + 1, start);
        }
    }
}

}
