//! The highest and the typical high score of callables.
use vstd::prelude::*;
use crate::order::{lemma_sorted_holds, sorted, sorted_is_ordered, sorted_length, stable_sort};
use crate::sums::{clipped, multiplied, total, total_push, total_sorted};

verus! {

/// Whether a number may stand before another.
pub open spec fn number_precedes() -> spec_fn(usize, usize) -> bool {
    |left: usize, right: usize| left <= right
}

/// The largest of the first `count` numbers, or zero.
pub open spec fn highest_upto(numbers: Seq<usize>, count: nat) -> usize
    decreases count,
{
    if count == 0 {
        0
    } else {
        let earlier = highest_upto(numbers, (count - 1) as nat);
        if numbers[count - 1] > earlier {
            numbers[count - 1]
        } else {
            earlier
        }
    }
}

/// The score that at least 95 in 100 scores do not exceed, or zero.
pub open spec fn percentile(scores: Seq<usize>) -> usize {
    if scores.len() == 0 {
        0
    } else {
        sorted(scores, number_precedes())[clipped((scores.len() * 19 + 19) as nat) / 20 - 1]
    }
}

fn number_in_order(left: &usize, right: &usize) -> (answer: bool)
    ensures
        answer == number_precedes()(*left, *right),
{
    *left <= *right
}

/// The number of scores that at least 95 in 100 do not exceed.
proof fn lemma_rank(count: nat)
    requires
        0 < count <= usize::MAX,
    ensures
        1 <= clipped((count * 19 + 19) as nat) / 20 <= count,
{
}

pub fn p95_score(scores: &Vec<usize>) -> (score: usize)
    ensures
        score == percentile(scores@),
{
    if scores.is_empty() {
        return 0;
    }
    let mut copy: Vec<usize> = Vec::new();
    let mut index: usize = 0;
    while index < scores.len()
        invariant
            index <= scores@.len(),
            copy@ =~= scores@.take(index as int),
        decreases scores@.len() - index,
    {
        copy.push(scores[index]);
        index += 1;
    }
    assert(copy@ =~= scores@);
    let count: usize = scores.len();
    let ordered = stable_sort(copy, number_in_order, Ghost(number_precedes()));
    let scaled: usize = multiplied(count, 19).saturating_add(19);
    proof {
        lemma_rank(count as nat);
        sorted_is_ordered(scores@, number_precedes());
        ordered@.to_multiset_ensures();
        scores@.to_multiset_ensures();
        assert(scaled == clipped((count * 19 + 19) as nat));
    }
    ordered[scaled / 20 - 1]
}

pub fn highest_score(scores: &Vec<usize>) -> (score: usize)
    ensures
        score == highest_upto(scores@, scores@.len()),
{
    let mut score: usize = 0;
    let mut index: usize = 0;
    while index < scores.len()
        invariant
            index <= scores@.len(),
            score == highest_upto(scores@, index as nat),
        decreases scores@.len() - index,
    {
        if scores[index] > score {
            score = scores[index];
        }
        index += 1;
    }
    score
}

/// How many scores do not exceed a limit.
pub open spec fn at_most(scores: Seq<usize>, limit: usize) -> nat {
    total(
        scores.map_values(
            |score: usize|
                if score <= limit {
                    1nat
                } else {
                    0nat
                },
        ),
    )
}

proof fn lemma_ones(numbers: Seq<nat>, ones: nat)
    requires
        ones <= numbers.len(),
        forall|index: int| 0 <= index < numbers.len() ==> #[trigger] numbers[index] <= 1,
    ensures
        total(numbers) <= numbers.len(),
        (forall|index: int| 0 <= index < ones ==> #[trigger] numbers[index] == 1) ==> total(numbers)
            >= ones,
        (forall|index: int| ones <= index < numbers.len() ==> #[trigger] numbers[index] == 0)
            ==> total(numbers) <= ones,
    decreases numbers.len(),
{
    if numbers.len() > 0 {
        let shorter = numbers.drop_last();
        assert forall|index: int| 0 <= index < shorter.len() implies #[trigger] shorter[index]
            <= 1 by {
            assert(numbers[index] <= 1);
        }
        if ones < numbers.len() {
            lemma_ones(shorter, ones);
        } else {
            lemma_ones(shorter, (ones - 1) as nat);
        }
        assert(numbers[numbers.len() - 1] <= 1);
        assert forall|index: int| 0 <= index < shorter.len() implies #[trigger] shorter[index]
            == numbers[index] by {}
    }
}

/// The 95th percentile of scores is one of them, at least 95 in 100 of them do not
/// exceed it, and of no lower number the same can be said.
pub proof fn percentile_bounds_95_in_100(scores: Seq<usize>)
    requires
        scores.len() > 0,
        scores.len() * 19 + 19 <= usize::MAX,
    ensures
        scores.contains(percentile(scores)),
        100 * at_most(scores, percentile(scores)) >= 95 * scores.len(),
        forall|lower: usize|
            lower < percentile(scores) ==> 100 * #[trigger] at_most(scores, lower) < 95
                * scores.len(),
{
    let ordered = sorted(scores, number_precedes());
    let count = scores.len();
    let rank = (count * 19 + 19) / 20;
    let value = percentile(scores);
    lemma_rank(count);
    sorted_is_ordered(scores, number_precedes());
    sorted_length(scores, number_precedes());
    assert(value == ordered[rank - 1]);
    assert(ordered.contains(value));
    lemma_sorted_holds(scores, count, number_precedes(), value);
    assert(scores.contains(value));
    let below = |limit: usize|
        |score: usize|
            if score <= limit {
                1nat
            } else {
                0nat
            };
    total_sorted(scores, number_precedes(), below(value));
    let marks = ordered.map_values(below(value));
    assert forall|index: int| 0 <= index < rank implies #[trigger] marks[index] == 1 by {
        if index < rank - 1 {
            assert(number_precedes()(ordered[index], ordered[rank - 1]));
        }
    }
    lemma_ones(marks, rank as nat);
    assert(at_most(scores, value) == total(scores.map_values(below(value))));
    assert forall|lower: usize| lower < value implies 100 * #[trigger] at_most(scores, lower) < 95
        * count by {
        total_sorted(scores, number_precedes(), below(lower));
        let others = ordered.map_values(below(lower));
        assert forall|index: int| rank - 1 <= index < others.len() implies #[trigger] others[index]
            == 0 by {
            if index > rank - 1 {
                assert(number_precedes()(ordered[rank - 1], ordered[index]));
            }
        }
        lemma_ones(others, (rank - 1) as nat);
        assert(at_most(scores, lower) == total(scores.map_values(below(lower))));
    }
}

/// The highest score is one of the scores, and no other exceeds it.
pub proof fn highest_is_the_greatest(scores: Seq<usize>, count: nat)
    requires
        count <= scores.len(),
    ensures
        count == 0 ==> highest_upto(scores, count) == 0,
        count > 0 ==> exists|place: int|
            0 <= place < count && scores[place] == highest_upto(scores, count),
        forall|place: int|
            0 <= place < count ==> #[trigger] scores[place] <= highest_upto(scores, count),
    decreases count,
{
    if count > 0 {
        highest_is_the_greatest(scores, (count - 1) as nat);
        let earlier = highest_upto(scores, (count - 1) as nat);
        if scores[count - 1] > earlier || count == 1 {
            assert(scores[count - 1] == highest_upto(scores, count));
        }
    }
}

proof fn lemma_at_most(scores: Seq<usize>, limit: usize, count: nat)
    requires
        count <= scores.len(),
    ensures
        at_most(scores.take(count as int), limit) <= count,
        at_most(scores.take(count as int), limit) == count <==> forall|place: int|
            0 <= place < count ==> #[trigger] scores[place] <= limit,
    decreases count,
{
    let mark = |score: usize|
        if score <= limit {
            1nat
        } else {
            0nat
        };
    if count == 0 {
        assert(scores.take(0).map_values(mark) =~= Seq::<nat>::empty());
    } else {
        lemma_at_most(scores, limit, (count - 1) as nat);
        let fewer = scores.take(count - 1).map_values(mark);
        assert(scores.take(count as int).map_values(mark) =~= fewer.push(mark(scores[count - 1])));
        total_push(fewer, mark(scores[count - 1]));
    }
}

/// All scores are at most the highest, and fewer are at most anything lower.
pub proof fn highest_bounds_all(scores: Seq<usize>)
    ensures
        at_most(scores, highest_upto(scores, scores.len())) == scores.len(),
        forall|lower: usize|
            lower < highest_upto(scores, scores.len()) ==> #[trigger] at_most(scores, lower)
                < scores.len(),
{
    let highest = highest_upto(scores, scores.len());
    assert(scores.take(scores.len() as int) =~= scores);
    highest_is_the_greatest(scores, scores.len());
    lemma_at_most(scores, highest, scores.len());
    assert forall|lower: usize| lower < highest implies #[trigger] at_most(scores, lower)
        < scores.len() by {
        lemma_at_most(scores, lower, scores.len());
    }
}

}
