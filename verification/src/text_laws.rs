//! What numbers are written as.
use vstd::prelude::*;
use crate::text::{decimal, digit, magnitude, padded, points, signed_decimal, signed_points};

verus! {

/// What a digit stands for.
pub open spec fn digit_value(character: char) -> nat {
    if '0' <= character <= '9' {
        (character as u32 - '0' as u32) as nat
    } else {
        0
    }
}

/// What a text reads as in decimal.
pub open spec fn read_decimal(text: Seq<char>) -> nat
    decreases text.len(),
{
    if text.len() == 0 {
        0
    } else {
        read_decimal(text.drop_last()) * 10 + digit_value(text.last())
    }
}

/// Numbers are written in decimal so that they read back, in digits, without leading
/// zeros.
pub proof fn decimals_read_back(value: nat)
    ensures
        read_decimal(decimal(value)) == value,
        decimal(value).len() > 0,
        value > 0 ==> decimal(value)[0] != '0',
        value == 0 ==> decimal(value) == seq!['0'],
        forall|index: int|
            0 <= index < decimal(value).len() ==> '0' <= #[trigger] decimal(value)[index] <= '9',
    decreases value,
{
    let text = decimal(value);
    let last = digit(value % 10);
    assert(digit_value(last) == value % 10);
    if value < 10 {
        assert(text =~= seq![last]);
        assert(text.drop_last() =~= Seq::<char>::empty());
        assert(read_decimal(Seq::<char>::empty()) == 0);
    } else {
        decimals_read_back(value / 10);
        assert(text.drop_last() =~= decimal(value / 10));
        assert(text[0] == decimal(value / 10)[0]);
        assert forall|index: int| 0 <= index < text.len() implies '0' <= #[trigger] text[index]
            <= '9' by {
            if index < text.len() - 1 {
                assert(text[index] == decimal(value / 10)[index]);
            }
        }
    }
}

/// Score units are written as points with one decimal place: the digits without the
/// dot are the units.
pub proof fn points_read_back(units: nat)
    ensures
        points(units).len() >= 3,
        points(units)[points(units).len() - 2] == '.',
        read_decimal(points(units).take(points(units).len() - 2).push(points(units).last()))
            == units,
        read_decimal(points(units).take(points(units).len() - 2)) == units / 10,
{
    decimals_read_back(units / 10);
    let text = points(units);
    let whole = text.take(text.len() - 2);
    assert(whole =~= decimal(units / 10));
    let all = whole.push(text.last());
    assert(all.drop_last() =~= whole);
    assert(digit_value(digit(units % 10)) == units % 10);
}

/// A signed number starts with its sign, and what follows is how far it is from zero.
pub proof fn signs_stand_first(value: int)
    ensures
        signed_decimal(value)[0] == if value < 0 {
            '-'
        } else {
            '+'
        },
        read_decimal(signed_decimal(value).skip(1)) == if value < 0 {
            -value
        } else {
            value
        },
        signed_points(value)[0] == if value < 0 {
            '-'
        } else {
            '+'
        },
        signed_points(value).skip(1) == points(
            if value < 0 {
                (-value) as nat
            } else {
                value as nat
            },
        ),
{
    decimals_read_back(magnitude(value));
    assert(signed_decimal(value).skip(1) =~= decimal(magnitude(value)));
    assert(signed_points(value).skip(1) =~= points(magnitude(value)));
}

/// A text in a field stands at its right end, behind blanks, and is never cut.
pub proof fn fields_keep_their_texts(text: Seq<char>, width: nat)
    ensures
        padded(text, width).len() == if text.len() < width {
            width
        } else {
            text.len()
        },
        padded(text, width).skip(padded(text, width).len() - text.len()) == text,
        forall|index: int|
            0 <= index < padded(text, width).len() - text.len() ==> #[trigger] padded(
                text,
                width,
            )[index] == ' ',
{
    let field = padded(text, width);
    assert(field.skip(field.len() - text.len()) =~= text);
}

}
