//! Sums over sequences of numbers.
use vstd::prelude::*;
use crate::order::{insertion_point, kept, kept_upto, lemma_insertion_point, sorted, sorted_upto};

verus! {

/// All numbers of a sequence, added up.
pub open spec fn total(numbers: Seq<nat>) -> nat
    decreases numbers.len(),
{
    if numbers.len() == 0 {
        0
    } else {
        total(numbers.drop_last()) + numbers.last()
    }
}

pub proof fn total_push(numbers: Seq<nat>, number: nat)
    ensures
        total(numbers.push(number)) == total(numbers) + number,
{
    assert(numbers.push(number).drop_last() =~= numbers);
}

/// The sum over a sequence is the sum of the sums over its parts.
pub proof fn total_concat(left: Seq<nat>, right: Seq<nat>)
    ensures
        total(left + right) == total(left) + total(right),
    decreases right.len(),
{
    if right.len() == 0 {
        assert(left + right =~= left);
    } else {
        total_concat(left, right.drop_last());
        assert((left + right).drop_last() =~= left + right.drop_last());
    }
}

pub proof fn total_insert(numbers: Seq<nat>, place: int, number: nat)
    requires
        0 <= place <= numbers.len(),
    ensures
        total(numbers.insert(place, number)) == total(numbers) + number,
{
    let front = numbers.take(place);
    let back = numbers.skip(place);
    assert(numbers =~= front + back);
    assert(numbers.insert(place, number) =~= front.push(number) + back);
    total_push(front, number);
    total_concat(front, back);
    total_concat(front.push(number), back);
}

pub proof fn total_update(numbers: Seq<nat>, place: int, number: nat)
    requires
        0 <= place < numbers.len(),
    ensures
        total(numbers.update(place, number)) == total(numbers) - numbers[place] + number,
{
    let rest = numbers.remove(place);
    assert(numbers =~= rest.insert(place, numbers[place]));
    assert(numbers.update(place, number) =~= rest.insert(place, number));
    total_insert(rest, place, numbers[place]);
    total_insert(rest, place, number);
}

/// No part of a sequence adds up to more than the whole.
pub proof fn total_part(numbers: Seq<nat>, start: int, end: int)
    requires
        0 <= start <= end <= numbers.len(),
    ensures
        total(numbers.subrange(start, end)) <= total(numbers),
{
    let front = numbers.take(start);
    let part = numbers.subrange(start, end);
    let back = numbers.skip(end);
    assert(numbers =~= front + part + back);
    total_concat(front + part, back);
    total_concat(front, part);
}

pub proof fn total_member(numbers: Seq<nat>, place: int)
    requires
        0 <= place < numbers.len(),
    ensures
        numbers[place] <= total(numbers),
{
    total_part(numbers, place, place + 1);
    total_push(Seq::<nat>::empty(), numbers[place]);
    assert(numbers.subrange(place, place + 1) =~= Seq::<nat>::empty().push(numbers[place]));
}

/// A number, or the largest one of its type where it is larger.
pub open spec fn clipped(value: nat) -> usize {
    if value > usize::MAX {
        usize::MAX
    } else {
        value as usize
    }
}

/// The product of two numbers, or the largest number where it is larger.
pub fn multiplied(value: usize, factor: usize) -> (product: usize)
    ensures
        product == clipped((value * factor) as nat),
{
    proof {
        assert(value * factor >= 0) by (nonlinear_arith);
    }
    match value.checked_mul(factor) {
        Some(product) => product,
        None => usize::MAX,
    }
}

proof fn lemma_total_sorted<T>(
    items: Seq<T>,
    count: nat,
    precedes: spec_fn(T, T) -> bool,
    worth: spec_fn(T) -> nat,
)
    requires
        count <= items.len(),
    ensures
        total(sorted_upto(items, count, precedes).map_values(worth)) == total(
            items.take(count as int).map_values(worth),
        ),
    decreases count,
{
    if count == 0 {
        assert(sorted_upto(items, 0, precedes).map_values(worth) =~= items.take(0).map_values(
            worth,
        ));
    } else {
        lemma_total_sorted(items, (count - 1) as nat, precedes, worth);
        let rest = sorted_upto(items, (count - 1) as nat, precedes);
        let item = items[count - 1];
        let place = insertion_point(rest, item, precedes);
        lemma_insertion_point(rest, item, precedes);
        assert(rest.insert(place, item).map_values(worth) =~= rest.map_values(worth).insert(
            place,
            worth(item),
        ));
        total_insert(rest.map_values(worth), place, worth(item));
        let fewer = items.take(count - 1).map_values(worth);
        assert(items.take(count as int).map_values(worth) =~= fewer.push(worth(item)));
        total_push(fewer, worth(item));
    }
}

/// The order of what is added up is no matter.
pub proof fn total_sorted<T>(
    items: Seq<T>,
    precedes: spec_fn(T, T) -> bool,
    worth: spec_fn(T) -> nat,
)
    ensures
        total(sorted(items, precedes).map_values(worth)) == total(items.map_values(worth)),
{
    lemma_total_sorted(items, items.len(), precedes, worth);
    assert(items.take(items.len() as int) =~= items);
}

proof fn lemma_total_kept<T>(items: Seq<T>, keep: spec_fn(T) -> bool, count: nat)
    requires
        count <= items.len(),
    ensures
        kept_upto(items, keep, count).len() == total(
            items.take(count as int).map_values(
                |item: T|
                    if keep(item) {
                        1nat
                    } else {
                        0nat
                    },
            ),
        ),
    decreases count,
{
    let worth = |item: T|
        if keep(item) {
            1nat
        } else {
            0nat
        };
    if count == 0 {
        assert(items.take(0).map_values(worth) =~= Seq::<nat>::empty());
    } else {
        lemma_total_kept(items, keep, (count - 1) as nat);
        let fewer = items.take(count - 1).map_values(worth);
        assert(items.take(count as int).map_values(worth) =~= fewer.push(worth(items[count - 1])));
        total_push(fewer, worth(items[count - 1]));
    }
}

/// As many items are kept as there are to be kept.
pub proof fn total_kept<T>(items: Seq<T>, keep: spec_fn(T) -> bool)
    ensures
        kept(items, keep).len() == total(
            items.map_values(
                |item: T|
                    if keep(item) {
                        1nat
                    } else {
                        0nat
                    },
            ),
        ),
{
    lemma_total_kept(items, keep, items.len());
    assert(items.take(items.len() as int) =~= items);
}

}
