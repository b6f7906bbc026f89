//! Text building: decimal numbers, score points, padding and joining.
use vstd::prelude::*;
use vstd::string::{StrSliceExecFns, StringExecFns};
use vstd::utf8::encode_utf8;
use crate::order::{
    compare_numbers, compare_text, list_relation, order_pair, text_order, text_order_is_total,
    Relation,
};

verus! {

/// `String::push` appends the character at the end.
pub assume_specification[ String::push ](text: &mut String, character: char)
    ensures
        final(text)@ == old(text)@.push(character),
;

/// The decimal digit of a number below ten.
pub open spec fn digit(value: nat) -> char {
    if value == 0 {
        '0'
    } else if value == 1 {
        '1'
    } else if value == 2 {
        '2'
    } else if value == 3 {
        '3'
    } else if value == 4 {
        '4'
    } else if value == 5 {
        '5'
    } else if value == 6 {
        '6'
    } else if value == 7 {
        '7'
    } else if value == 8 {
        '8'
    } else {
        '9'
    }
}

fn digit_of(value: u64) -> (character: char)
    ensures
        character == digit(value as nat),
{
    match value {
        0 => '0',
        1 => '1',
        2 => '2',
        3 => '3',
        4 => '4',
        5 => '5',
        6 => '6',
        7 => '7',
        8 => '8',
        _ => '9',
    }
}

/// A number in decimal, without leading zeros.
pub open spec fn decimal(value: nat) -> Seq<char>
    decreases value,
{
    if value < 10 {
        seq![digit(value)]
    } else {
        decimal(value / 10).push(digit(value % 10))
    }
}

pub fn push_decimal(text: &mut String, value: usize)
    ensures
        final(text)@ == old(text)@ + decimal(value as nat),
{
    push_digits(text, value as u64);
}

fn push_digits(text: &mut String, value: u64)
    ensures
        final(text)@ == old(text)@ + decimal(value as nat),
    decreases value,
{
    let ghost before = text@;
    if value < 10 {
        text.push(digit_of(value));
        proof {
            assert(text@ =~= before + decimal(value as nat));
        }
    } else {
        push_digits(text, value / 10);
        text.push(digit_of(value % 10));
        proof {
            assert(text@ =~= before + decimal(value as nat));
        }
    }
}

/// Score units in score points: one decimal place, exactly.
pub open spec fn points(units: nat) -> Seq<char> {
    decimal(units / 10) + seq!['.', digit(units % 10)]
}

pub fn push_points(text: &mut String, units: usize)
    ensures
        final(text)@ == old(text)@ + points(units as nat),
{
    push_tenths(text, units as u64);
}

fn push_tenths(text: &mut String, units: u64)
    ensures
        final(text)@ == old(text)@ + points(units as nat),
{
    let ghost before = text@;
    push_digits(text, units / 10);
    text.push('.');
    text.push(digit_of(units % 10));
    proof {
        assert(text@ =~= before + points(units as nat));
    }
}

/// The magnitude of an integer.
pub open spec fn magnitude(value: int) -> nat {
    if value < 0 {
        (-value) as nat
    } else {
        value as nat
    }
}

/// Signed score units in score points, with an explicit sign.
pub open spec fn signed_points(units: int) -> Seq<char> {
    (if units < 0 {
        seq!['-']
    } else {
        seq!['+']
    }) + points(magnitude(units))
}

/// The magnitude of a machine integer.
pub fn magnitude_of(value: i64) -> (result: u64)
    ensures
        result == magnitude(value as int),
{
    if value >= 0 {
        value as u64
    } else if value == i64::MIN {
        9223372036854775808
    } else {
        (-value) as u64
    }
}

pub fn push_signed_points(text: &mut String, units: i64)
    ensures
        final(text)@ == old(text)@ + signed_points(units as int),
{
    let ghost before = text@;
    if units < 0 {
        text.push('-');
    } else {
        text.push('+');
    }
    push_tenths(text, magnitude_of(units));
    proof {
        assert(text@ =~= before + signed_points(units as int));
    }
}

/// An integer in decimal, with an explicit sign.
pub open spec fn signed_decimal(value: int) -> Seq<char> {
    (if value < 0 {
        seq!['-']
    } else {
        seq!['+']
    }) + decimal(magnitude(value))
}

pub fn push_signed_decimal(text: &mut String, value: i64)
    ensures
        final(text)@ == old(text)@ + signed_decimal(value as int),
{
    let ghost before = text@;
    if value < 0 {
        text.push('-');
    } else {
        text.push('+');
    }
    push_digits(text, magnitude_of(value));
    proof {
        assert(text@ =~= before + signed_decimal(value as int));
    }
}

/// A text repeated.
pub open spec fn repeated(character: char, count: nat) -> Seq<char> {
    Seq::new(count, |index: int| character)
}

/// A text moved to the right end of a field that is `width` characters wide.
pub open spec fn padded(text: Seq<char>, width: nat) -> Seq<char> {
    repeated(
        ' ',
        if text.len() < width {
            (width - text.len()) as nat
        } else {
            0
        },
    ) + text
}

pub fn push_repeated(text: &mut String, character: char, count: usize)
    ensures
        final(text)@ == old(text)@ + repeated(character, count as nat),
{
    let ghost before = text@;
    let mut done: usize = 0;
    proof {
        assert(text@ =~= before + repeated(character, 0));
    }
    while done < count
        invariant
            done <= count,
            text@ == before + repeated(character, done as nat),
        decreases count - done,
    {
        text.push(character);
        done += 1;
        proof {
            assert(text@ =~= before + repeated(character, done as nat));
        }
    }
}

/// Signed score points at the right end of a field of six characters.
pub fn push_points_column(text: &mut String, units: i64)
    ensures
        final(text)@ == old(text)@ + padded(signed_points(units as int), 6),
{
    let mut column = String::new();
    push_signed_points(&mut column, units);
    proof {
        assert(column@ =~= signed_points(units as int));
    }
    push_padded(text, column.as_str(), 6);
}

pub fn push_padded(text: &mut String, value: &str, width: usize)
    ensures
        final(text)@ == old(text)@ + padded(value@, width as nat),
{
    let ghost before = text@;
    let length: usize = value.unicode_len();
    if length < width {
        push_repeated(text, ' ', width - length);
    }
    text.append(value);
    proof {
        assert(text@ =~= before + padded(value@, width as nat));
    }
}

/// The characters of a text, one by one.
pub fn characters(text: &str) -> (result: Vec<char>)
    ensures
        result@ == text@,
{
    let mut result: Vec<char> = Vec::new();
    for character in iter: text.chars()
        invariant
            iter.seq() == text@,
            result@ == text@.take(iter.index@),
    {
        result.push(character);
        proof {
            assert(text@.take(iter.index@ + 1) =~= text@.take(iter.index@).push(character));
        }
    }
    proof {
        assert(text@.take(text@.len() as int) =~= text@);
    }
    result
}

/// Whether a character has the Unicode property `White_Space`.
pub open spec fn white_space(character: char) -> bool {
    let code = character as u32;
    0x09 <= code <= 0x0D || code == 0x20 || code == 0x85 || code == 0xA0 || code == 0x1680
        || 0x2000 <= code <= 0x200A || code == 0x2028 || code == 0x2029 || code == 0x202F
        || code == 0x205F || code == 0x3000
}

pub fn is_white_space(character: char) -> (answer: bool)
    ensures
        answer == white_space(character),
{
    let code: u32 = character as u32;
    (0x09 <= code && code <= 0x0D) || code == 0x20 || code == 0x85 || code == 0xA0 || code == 0x1680
        || (0x2000 <= code && code <= 0x200A) || code == 0x2028 || code == 0x2029 || code == 0x202F
        || code == 0x205F || code == 0x3000
}

/// Whether nothing but white space stands in a text.
pub open spec fn blank(text: Seq<char>) -> bool {
    forall|index: int| 0 <= index < text.len() ==> white_space(#[trigger] text[index])
}

pub fn is_blank(text: &str) -> (answer: bool)
    ensures
        answer == blank(text@),
{
    let characters = characters(text);
    let mut index: usize = 0;
    while index < characters.len()
        invariant
            index <= characters@.len(),
            characters@ == text@,
            forall|earlier: int| 0 <= earlier < index ==> white_space(#[trigger] text@[earlier]),
        decreases characters@.len() - index,
    {
        if !is_white_space(characters[index]) {
            return false;
        }
        index += 1;
    }
    true
}

/// Whether a text has no more than so many bytes.
pub open spec fn fits(text: Seq<char>, limit: u32) -> bool {
    encode_utf8(text).len() <= limit
}

pub fn is_fitting(text: &str, limit: u32) -> (answer: bool)
    ensures
        answer == fits(text@, limit),
{
    text.as_bytes().len() <= limit as usize
}

/// What source is refused with that is longer than its parser can count.
pub open spec fn length_refusal() -> Seq<char> {
    "source is too long to analyze"@
}

/// Whether two texts are the same.
pub fn same_text(left: &str, right: &str) -> (answer: bool)
    ensures
        answer == (left@ == right@),
{
    proof {
        text_order_is_total();
        order_pair(text_order(), left@, right@);
    }
    compare_text(left, right) == Relation::Same
}

/// Whether a text starts with another.
pub open spec fn begins(text: Seq<char>, start: Seq<char>) -> bool {
    text.len() >= start.len() && text.take(start.len() as int) == start
}

/// Whether a text ends with another.
pub open spec fn ends(text: Seq<char>, end: Seq<char>) -> bool {
    text.len() >= end.len() && text.skip(text.len() - end.len()) == end
}

/// Whether a text holds another.
pub open spec fn holds(text: Seq<char>, part: Seq<char>) -> bool {
    exists|start: int|
        0 <= start <= text.len() - part.len() && #[trigger] text.subrange(
            start,
            start + part.len(),
        ) == part
}

pub fn starts_with(text: &str, start: &str) -> (answer: bool)
    ensures
        answer == begins(text@, start@),
{
    let length: usize = start.unicode_len();
    if text.unicode_len() < length {
        return false;
    }
    let front = text.substring_char(0, length);
    assert(front@ =~= text@.take(length as int));
    same_text(front, start)
}

pub fn ends_with(text: &str, end: &str) -> (answer: bool)
    ensures
        answer == ends(text@, end@),
{
    let length: usize = end.unicode_len();
    let whole: usize = text.unicode_len();
    if whole < length {
        return false;
    }
    let back = text.substring_char(whole - length, whole);
    assert(back@ =~= text@.skip(whole - length));
    same_text(back, end)
}

pub fn contains_text(text: &str, part: &str) -> (answer: bool)
    ensures
        answer == holds(text@, part@),
{
    let length: usize = part.unicode_len();
    let whole: usize = text.unicode_len();
    if whole < length {
        return false;
    }
    let mut start: usize = 0;
    while start <= whole - length
        invariant
            length == part@.len(),
            whole == text@.len(),
            length <= whole,
            start <= whole - length,
            forall|earlier: int|
                0 <= earlier < start ==> #[trigger] text@.subrange(earlier, earlier + length)
                    != part@,
        decreases whole - start,
    {
        if same_text(text.substring_char(start, start + length), part) {
            return true;
        }
        if start == whole - length {
            return false;
        }
        start += 1;
    }
    false
}

/// The texts of a sequence of strings.
pub open spec fn texts(items: Seq<String>) -> Seq<Seq<char>> {
    items.map_values(|item: String| item@)
}

/// Whether two lists hold the same texts.
pub fn same_texts(left: &Vec<String>, right: &Vec<String>) -> (answer: bool)
    ensures
        answer == (texts(left@) == texts(right@)),
{
    if left.len() != right.len() {
        proof {
            assert(texts(left@).len() != texts(right@).len());
        }
        return false;
    }
    let mut index: usize = 0;
    while index < left.len()
        invariant
            index <= left@.len(),
            left@.len() == right@.len(),
            forall|earlier: int|
                0 <= earlier < index ==> texts(left@)[earlier] == texts(right@)[earlier],
        decreases left@.len() - index,
    {
        if left[index] != right[index] {
            proof {
                assert(texts(left@)[index as int] != texts(right@)[index as int]);
            }
            return false;
        }
        index += 1;
    }
    proof {
        assert(texts(left@) =~= texts(right@));
    }
    true
}

/// The lexicographic relation of two lists of texts.
pub fn compare_texts(left: &Vec<String>, right: &Vec<String>) -> (relation: Relation)
    ensures
        relation == list_relation(texts(left@), texts(right@), text_order()),
{
    let ghost left_texts = texts(left@);
    let ghost right_texts = texts(right@);
    let mut index: usize = 0;
    proof {
        assert(left_texts.skip(0) =~= left_texts);
        assert(right_texts.skip(0) =~= right_texts);
    }
    while index < left.len() && index < right.len()
        invariant
            index <= left@.len(),
            index <= right@.len(),
            left_texts == texts(left@),
            right_texts == texts(right@),
            list_relation(left_texts, right_texts, text_order()) == list_relation(
                left_texts.skip(index as int),
                right_texts.skip(index as int),
                text_order(),
            ),
        decreases left@.len() - index,
    {
        proof {
            assert(left_texts.skip(index as int).skip(1) =~= left_texts.skip(index + 1));
            assert(right_texts.skip(index as int).skip(1) =~= right_texts.skip(index + 1));
        }
        let relation = compare_text(left[index].as_str(), right[index].as_str());
        if relation != Relation::Same {
            return relation;
        }
        index += 1;
    }
    compare_numbers(left.len() - index, right.len() - index)
}

/// Whether a list holds a text.
pub fn holds_text(items: &Vec<String>, text: &str) -> (answer: bool)
    ensures
        answer == texts(items@).contains(text@),
{
    let mut index: usize = 0;
    while index < items.len()
        invariant
            index <= items@.len(),
            forall|earlier: int| 0 <= earlier < index ==> texts(items@)[earlier] != text@,
        decreases items@.len() - index,
    {
        assert(texts(items@)[index as int] == items@[index as int]@);
        if same_text(items[index].as_str(), text) {
            return true;
        }
        index += 1;
    }
    false
}

/// The first `count` texts, with `separator` between each two.
pub open spec fn joined_upto(items: Seq<Seq<char>>, separator: Seq<char>, count: nat) -> Seq<char>
    decreases count,
{
    if count == 0 {
        Seq::empty()
    } else if count == 1 {
        items[0]
    } else {
        joined_upto(items, separator, (count - 1) as nat) + separator + items[count - 1]
    }
}

/// All texts, with `separator` between each two.
pub open spec fn joined(items: Seq<Seq<char>>, separator: Seq<char>) -> Seq<char> {
    joined_upto(items, separator, items.len())
}

pub fn join(items: &Vec<String>, separator: &str) -> (text: String)
    ensures
        text@ == joined(texts(items@), separator@),
{
    let mut text = String::new();
    let mut index: usize = 0;
    while index < items.len()
        invariant
            index <= items@.len(),
            text@ == joined_upto(texts(items@), separator@, index as nat),
        decreases items@.len() - index,
    {
        if index > 0 {
            text.append(separator);
        }
        text.append(items[index].as_str());
        proof {
            if index == 0 {
                assert(text@ =~= texts(items@)[0]);
            } else {
                assert(text@ =~= joined_upto(texts(items@), separator@, (index + 1) as nat));
            }
        }
        index += 1;
    }
    text
}

/// The text of a string as Rust's `Debug` format shows it, in quotes with its
/// escapes.
pub uninterp spec fn quoted(text: Seq<char>) -> Seq<char>;

/// `format!` with `{:?}` on a string: the escaped text in double quotes, which
/// depends on the text alone. Which characters are escaped is left unsaid.
#[verifier::external_body]
fn debug_format(text: &str) -> (result: String)
    ensures
        result@ == quoted(text@),
{
    format!("{:?}", text)
}

pub fn push_quoted(text: &mut String, value: &str)
    ensures
        final(text)@ == old(text)@ + quoted(value@),
{
    let shown = debug_format(value);
    text.append(shown.as_str());
}

}
