//! Three-way comparison and stable sorting.
use vstd::prelude::*;

verus! {

/// How one value stands to another in a total order.
#[derive(Clone, Copy, Debug, PartialEq, Eq, Structural)]
pub enum Relation {
    Before,
    Same,
    After,
}

/// The relation of two integers.
pub open spec fn number_relation(left: int, right: int) -> Relation {
    if left < right {
        Relation::Before
    } else if left > right {
        Relation::After
    } else {
        Relation::Same
    }
}

/// `first`, unless it leaves the two values tied; then `second`.
pub open spec fn chained(first: Relation, second: Relation) -> Relation {
    if first == Relation::Same {
        second
    } else {
        first
    }
}

/// The relation with its two sides exchanged.
pub open spec fn flipped(relation: Relation) -> Relation {
    match relation {
        Relation::Before => Relation::After,
        Relation::Same => Relation::Same,
        Relation::After => Relation::Before,
    }
}

/// Lexicographic relation of two sequences whose elements `relation` orders.
pub open spec fn list_relation<T>(
    left: Seq<T>,
    right: Seq<T>,
    relation: spec_fn(T, T) -> Relation,
) -> Relation
    decreases left.len(),
{
    if left.len() == 0 || right.len() == 0 {
        number_relation(left.len() as int, right.len() as int)
    } else {
        chained(
            relation(left[0], right[0]),
            list_relation(left.skip(1), right.skip(1), relation),
        )
    }
}

/// The numeric order of bytes.
pub open spec fn byte_order() -> spec_fn(u8, u8) -> Relation {
    |left: u8, right: u8| number_relation(left as int, right as int)
}

/// Lexicographic relation of two byte strings.
pub open spec fn bytes_relation(left: Seq<u8>, right: Seq<u8>) -> Relation {
    list_relation(left, right, byte_order())
}

/// Relation of two texts: that of their UTF-8 encodings.
pub open spec fn text_relation(left: Seq<char>, right: Seq<char>) -> Relation {
    bytes_relation(vstd::utf8::encode_utf8(left), vstd::utf8::encode_utf8(right))
}

/// The order of texts.
pub open spec fn text_order() -> spec_fn(Seq<char>, Seq<char>) -> Relation {
    |left: Seq<char>, right: Seq<char>| text_relation(left, right)
}

/// Whether the relation of a first value to a third agrees with how both stand
/// to a second.
pub open spec fn composes(first: Relation, second: Relation, whole: Relation) -> bool {
    &&& first == Relation::Same ==> whole == second
    &&& second == Relation::Same ==> whole == first
    &&& first == second ==> whole == first
}

/// Whether a relation is a total order in which only equal values tie.
#[verifier::opaque]
pub open spec fn total_order<T>(relation: spec_fn(T, T) -> Relation) -> bool {
    &&& forall|left: T, right: T|
        (#[trigger] relation(left, right) == Relation::Same) <==> left == right
    &&& forall|left: T, right: T| #[trigger]
        relation(left, right) == flipped(relation(right, left))
    &&& forall|left: T, middle: T, right: T|
        composes(#[trigger] relation(left, middle), #[trigger] relation(middle, right), relation(left, right))
}

/// How a total order relates two values.
pub proof fn order_pair<T>(relation: spec_fn(T, T) -> Relation, left: T, right: T)
    requires
        total_order(relation),
    ensures
        (relation(left, right) == Relation::Same) <==> left == right,
        relation(left, right) == flipped(relation(right, left)),
{
    reveal(total_order);
}

/// How a total order relates three values.
pub proof fn order_triple<T>(relation: spec_fn(T, T) -> Relation, left: T, middle: T, right: T)
    requires
        total_order(relation),
    ensures
        composes(relation(left, middle), relation(middle, right), relation(left, right)),
{
    reveal(total_order);
}

proof fn lemma_list_pair<T>(left: Seq<T>, right: Seq<T>, relation: spec_fn(T, T) -> Relation)
    requires
        total_order(relation),
    ensures
        (list_relation(left, right, relation) == Relation::Same) <==> left == right,
        list_relation(left, right, relation) == flipped(list_relation(right, left, relation)),
    decreases left.len(),
{
    if left.len() == 0 || right.len() == 0 {
        if left.len() == right.len() {
            assert(left =~= right);
        }
    } else {
        lemma_list_pair(left.skip(1), right.skip(1), relation);
        order_pair(relation, left[0], right[0]);
        if left[0] == right[0] && left.skip(1) == right.skip(1) {
            assert(left =~= seq![left[0]] + left.skip(1));
            assert(right =~= seq![right[0]] + right.skip(1));
        }
    }
}

proof fn lemma_list_triple<T>(
    left: Seq<T>,
    middle: Seq<T>,
    right: Seq<T>,
    relation: spec_fn(T, T) -> Relation,
)
    requires
        total_order(relation),
    ensures
        composes(
            list_relation(left, middle, relation),
            list_relation(middle, right, relation),
            list_relation(left, right, relation),
        ),
    decreases left.len(),
{
    if left.len() > 0 && middle.len() > 0 && right.len() > 0 {
        lemma_list_triple(left.skip(1), middle.skip(1), right.skip(1), relation);
        order_triple(relation, left[0], middle[0], right[0]);
    }
}

/// The lexicographic order of sequences over a total order.
pub open spec fn list_order<T>(relation: spec_fn(T, T) -> Relation) -> spec_fn(
    Seq<T>,
    Seq<T>,
) -> Relation {
    |left: Seq<T>, right: Seq<T>| list_relation(left, right, relation)
}

/// Sequences over a total order are totally ordered themselves.
pub proof fn list_order_is_total<T>(relation: spec_fn(T, T) -> Relation)
    requires
        total_order(relation),
    ensures
        total_order(list_order(relation)),
{
    reveal(total_order);
    let order = list_order(relation);
    assert forall|left: Seq<T>, right: Seq<T>|
        (#[trigger] order(left, right) == Relation::Same) <==> left == right by {
        lemma_list_pair(left, right, relation);
    }
    assert forall|left: Seq<T>, right: Seq<T>| #[trigger]
        order(left, right) == flipped(order(right, left)) by {
        lemma_list_pair(left, right, relation);
    }
    assert forall|left: Seq<T>, middle: Seq<T>, right: Seq<T>|
        composes(#[trigger] order(left, middle), #[trigger] order(middle, right), order(left, right)) by {
        lemma_list_triple(left, middle, right, relation);
    }
}

/// Texts are totally ordered, and only equal texts tie.
pub proof fn text_order_is_total()
    ensures
        total_order(text_order()),
{
    assert(total_order(byte_order())) by {
        reveal(total_order);
    }
    list_order_is_total(byte_order());
    let bytes = list_order(byte_order());
    let order = text_order();
    assert forall|left: Seq<char>, right: Seq<char>|
        (#[trigger] order(left, right) == Relation::Same) <==> left == right by {
        let left_bytes = vstd::utf8::encode_utf8(left);
        let right_bytes = vstd::utf8::encode_utf8(right);
        order_pair(bytes, left_bytes, right_bytes);
        vstd::utf8::encode_utf8_decode_utf8(left);
        vstd::utf8::encode_utf8_decode_utf8(right);
    }
    assert forall|left: Seq<char>, right: Seq<char>| #[trigger]
        order(left, right) == flipped(order(right, left)) by {
        let left_bytes = vstd::utf8::encode_utf8(left);
        let right_bytes = vstd::utf8::encode_utf8(right);
        order_pair(bytes, left_bytes, right_bytes);
    }
    assert forall|left: Seq<char>, middle: Seq<char>, right: Seq<char>|
        composes(#[trigger] order(left, middle), #[trigger] order(middle, right), order(left, right)) by {
        let left_bytes = vstd::utf8::encode_utf8(left);
        let middle_bytes = vstd::utf8::encode_utf8(middle);
        let right_bytes = vstd::utf8::encode_utf8(right);
        order_triple(bytes, left_bytes, middle_bytes, right_bytes);
    }
    assert(total_order(order)) by {
        reveal(total_order);
    }
}

pub fn compare_numbers(left: usize, right: usize) -> (relation: Relation)
    ensures
        relation == number_relation(left as int, right as int),
{
    if left < right {
        Relation::Before
    } else if left > right {
        Relation::After
    } else {
        Relation::Same
    }
}

pub fn compare_bytes(left: &[u8], right: &[u8]) -> (relation: Relation)
    ensures
        relation == bytes_relation(left@, right@),
{
    let mut index: usize = 0;
    proof {
        assert(left@.skip(0) =~= left@);
        assert(right@.skip(0) =~= right@);
    }
    while index < left.len() && index < right.len()
        invariant
            index <= left.len(),
            index <= right.len(),
            bytes_relation(left@, right@) == bytes_relation(
                left@.skip(index as int),
                right@.skip(index as int),
            ),
        decreases left.len() - index,
    {
        proof {
            assert(left@.skip(index as int).skip(1) =~= left@.skip(index + 1));
            assert(right@.skip(index as int).skip(1) =~= right@.skip(index + 1));
        }
        if left[index] < right[index] {
            return Relation::Before;
        }
        if left[index] > right[index] {
            return Relation::After;
        }
        index += 1;
    }
    compare_numbers(left.len() - index, right.len() - index)
}

pub fn compare_text(left: &str, right: &str) -> (relation: Relation)
    ensures
        relation == text_relation(left@, right@),
{
    compare_bytes(left.as_bytes(), right.as_bytes())
}

/// Where `item` goes into `items`: behind the last element that may precede it.
pub open spec fn insertion_point<T>(
    items: Seq<T>,
    item: T,
    precedes: spec_fn(T, T) -> bool,
) -> int
    decreases items.len(),
{
    if items.len() == 0 {
        0
    } else if precedes(items.last(), item) {
        items.len() as int
    } else {
        insertion_point(items.drop_last(), item, precedes)
    }
}

/// The first `count` elements, each inserted behind the last one that may
/// precede it.
pub open spec fn sorted_upto<T>(
    items: Seq<T>,
    count: nat,
    precedes: spec_fn(T, T) -> bool,
) -> Seq<T>
    decreases count,
{
    if count == 0 {
        Seq::empty()
    } else {
        let rest = sorted_upto(items, (count - 1) as nat, precedes);
        let item = items[count - 1];
        rest.insert(insertion_point(rest, item, precedes), item)
    }
}

/// The stable sort of a sequence: elements that tie keep their order.
pub open spec fn sorted<T>(items: Seq<T>, precedes: spec_fn(T, T) -> bool) -> Seq<T> {
    sorted_upto(items, items.len(), precedes)
}

pub proof fn lemma_insertion_point<T>(items: Seq<T>, item: T, precedes: spec_fn(T, T) -> bool)
    ensures
        0 <= insertion_point(items, item, precedes) <= items.len(),
        insertion_point(items, item, precedes) > 0 ==> precedes(
            items[insertion_point(items, item, precedes) - 1],
            item,
        ),
        forall|index: int|
            insertion_point(items, item, precedes) <= index < items.len() ==> !precedes(
                #[trigger] items[index],
                item,
            ),
    decreases items.len(),
{
    if items.len() > 0 && !precedes(items.last(), item) {
        lemma_insertion_point(items.drop_last(), item, precedes);
        assert forall|index: int|
            insertion_point(items, item, precedes) <= index < items.len() implies !precedes(
            #[trigger] items[index],
            item,
        ) by {
            if index < items.len() - 1 {
                assert(items.drop_last()[index] == items[index]);
            }
        }
    }
}

/// Sorts by `precedes`, keeping tied elements in their order.
pub(crate) fn stable_sort<T, F: Fn(&T, &T) -> bool>(
    items: Vec<T>,
    precedes: F,
    Ghost(order): Ghost<spec_fn(T, T) -> bool>,
) -> (result: Vec<T>)
    requires
        forall|left: &T, right: &T| #[trigger] precedes.requires((left, right)),
        forall|left: &T, right: &T, answer: bool| #[trigger]
            precedes.ensures((left, right), answer) ==> answer == order(*left, *right),
    ensures
        result@ == sorted(items@, order),
{
    let mut pending = items;
    let mut reversed: Vec<T> = Vec::new();
    let ghost source = items@;
    let ghost total = source.len();
    while pending.len() > 0
        invariant
            total == source.len(),
            pending@.len() + reversed@.len() == total,
            forall|index: int| 0 <= index < pending@.len() ==> pending@[index] == source[index],
            forall|index: int|
                0 <= index < reversed@.len() ==> reversed@[index] == source[total - 1 - index],
        decreases pending@.len(),
    {
        let item = pending.pop().unwrap();
        reversed.push(item);
    }
    let mut result: Vec<T> = Vec::new();
    while reversed.len() > 0
        invariant
            total == source.len(),
            result@.len() + reversed@.len() == total,
            forall|index: int|
                0 <= index < reversed@.len() ==> reversed@[index] == source[total - 1 - index],
            result@ == sorted_upto(source, result@.len(), order),
            forall|left: &T, right: &T| #[trigger] precedes.requires((left, right)),
            forall|left: &T, right: &T, answer: bool| #[trigger]
                precedes.ensures((left, right), answer) ==> answer == order(*left, *right),
        decreases reversed@.len(),
    {
        let ghost done = result@.len();
        let item = reversed.pop().unwrap();
        assert(item == source[done as int]);
        let mut place: usize = result.len();
        proof {
            assert(result@.take(place as int) =~= result@);
        }
        while place > 0 && !precedes(&result[place - 1], &item)
            invariant
                place <= result@.len(),
                insertion_point(result@, item, order) == insertion_point(
                    result@.take(place as int),
                    item,
                    order,
                ),
                forall|left: &T, right: &T| #[trigger] precedes.requires((left, right)),
                forall|left: &T, right: &T, answer: bool| #[trigger]
                    precedes.ensures((left, right), answer) ==> answer == order(*left, *right),
            ensures
                place == insertion_point(result@, item, order),
            decreases place,
        {
            proof {
                assert(result@.take(place as int).drop_last() =~= result@.take(place - 1));
            }
            place -= 1;
        }
        result.insert(place, item);
    }
    result
}

/// Whether no element must stand behind a later one.
pub open spec fn in_order<T>(items: Seq<T>, precedes: spec_fn(T, T) -> bool) -> bool {
    forall|left: int, right: int|
        0 <= left < right < items.len() ==> precedes(#[trigger] items[left], #[trigger] items[right])
}

proof fn lemma_sorted_upto<T>(items: Seq<T>, count: nat, precedes: spec_fn(T, T) -> bool)
    requires
        count <= items.len(),
        forall|left: T, right: T| #[trigger]
            precedes(left, right) || precedes(right, left),
        forall|left: T, middle: T, right: T| #[trigger]
            precedes(left, middle) && #[trigger] precedes(middle, right) ==> precedes(left, right),
    ensures
        in_order(sorted_upto(items, count, precedes), precedes),
        sorted_upto(items, count, precedes).to_multiset() == items.take(count as int).to_multiset(),
        sorted_upto(items, count, precedes).len() == count,
    decreases count,
{
    broadcast use vstd::seq_lib::group_to_multiset_ensures;
    if count == 0 {
        assert(items.take(0) =~= Seq::<T>::empty());
    } else {
        let shorter = (count - 1) as nat;
        lemma_sorted_upto(items, shorter, precedes);
        let rest = sorted_upto(items, shorter, precedes);
        let item = items[count - 1];
        let place = insertion_point(rest, item, precedes);
        lemma_insertion_point(rest, item, precedes);
        let result = rest.insert(place, item);
        assert(items.take(count as int) =~= items.take(shorter as int).push(item));
        assert forall|left: int, right: int| 0 <= left < right < result.len() implies precedes(
            #[trigger] result[left],
            #[trigger] result[right],
        ) by {
            if left < place {
                assert(result[left] == rest[left]);
                assert(place > 0 && precedes(rest[place - 1], item));
                if left < place - 1 {
                    assert(precedes(rest[left], rest[place - 1]));
                }
                if right == place {
                } else if right < place {
                    assert(result[right] == rest[right]);
                } else {
                    assert(result[right] == rest[right - 1]);
                }
            } else if left == place {
                assert(result[right] == rest[right - 1]);
                assert(!precedes(rest[right - 1], item));
            } else {
                assert(result[left] == rest[left - 1]);
                assert(result[right] == rest[right - 1]);
            }
        }
        rest.insert_ensures(place, item);
    }
}

/// The stable sort over a total preorder holds the same elements, in order.
pub proof fn sorted_is_ordered<T>(items: Seq<T>, precedes: spec_fn(T, T) -> bool)
    requires
        forall|left: T, right: T| #[trigger]
            precedes(left, right) || precedes(right, left),
        forall|left: T, middle: T, right: T| #[trigger]
            precedes(left, middle) && #[trigger] precedes(middle, right) ==> precedes(left, right),
    ensures
        in_order(sorted(items, precedes), precedes),
        sorted(items, precedes).to_multiset() == items.to_multiset(),
{
    lemma_sorted_upto(items, items.len(), precedes);
    assert(items.take(items.len() as int) =~= items);
}

proof fn lemma_insertion_point_mapped<T, U>(
    items: Seq<T>,
    item: T,
    precedes: spec_fn(T, T) -> bool,
    image: spec_fn(T) -> U,
    image_precedes: spec_fn(U, U) -> bool,
)
    requires
        forall|left: T, right: T| #[trigger]
            precedes(left, right) == image_precedes(image(left), image(right)),
    ensures
        insertion_point(items.map_values(image), image(item), image_precedes) == insertion_point(
            items,
            item,
            precedes,
        ),
    decreases items.len(),
{
    if items.len() > 0 {
        lemma_insertion_point_mapped(items.drop_last(), item, precedes, image, image_precedes);
        assert(items.drop_last().map_values(image) =~= items.map_values(image).drop_last());
        assert(precedes(items.last(), item) == image_precedes(image(items.last()), image(item)));
    }
}

proof fn lemma_sorted_upto_mapped<T, U>(
    items: Seq<T>,
    count: nat,
    precedes: spec_fn(T, T) -> bool,
    image: spec_fn(T) -> U,
    image_precedes: spec_fn(U, U) -> bool,
)
    requires
        count <= items.len(),
        forall|left: T, right: T| #[trigger]
            precedes(left, right) == image_precedes(image(left), image(right)),
    ensures
        sorted_upto(items, count, precedes).map_values(image) == sorted_upto(
            items.map_values(image),
            count,
            image_precedes,
        ),
    decreases count,
{
    if count == 0 {
        assert(Seq::<T>::empty().map_values(image) =~= Seq::<U>::empty());
    } else {
        let shorter = (count - 1) as nat;
        lemma_sorted_upto_mapped(items, shorter, precedes, image, image_precedes);
        let rest = sorted_upto(items, shorter, precedes);
        let item = items[count - 1];
        lemma_insertion_point_mapped(rest, item, precedes, image, image_precedes);
        lemma_insertion_point(rest, item, precedes);
        let place = insertion_point(rest, item, precedes);
        assert(rest.insert(place, item).map_values(image) =~= rest.map_values(image).insert(
            place,
            image(item),
        ));
    }
}

/// Sorting commutes with a map that carries one order over to the other.
pub proof fn sorted_mapped<T, U>(
    items: Seq<T>,
    precedes: spec_fn(T, T) -> bool,
    image: spec_fn(T) -> U,
    image_precedes: spec_fn(U, U) -> bool,
)
    requires
        forall|left: T, right: T| #[trigger]
            precedes(left, right) == image_precedes(image(left), image(right)),
    ensures
        sorted(items, precedes).map_values(image) == sorted(
            items.map_values(image),
            image_precedes,
        ),
{
    lemma_sorted_upto_mapped(items, items.len(), precedes, image, image_precedes);
}

/// The values that references stand for.
pub open spec fn referents<T>(items: Seq<&T>) -> Seq<T> {
    items.map_values(|item: &T| *item)
}

/// References to all items, sorted by `precedes`.
pub(crate) fn sort_references<'a, T, F: Fn(&&'a T, &&'a T) -> bool>(
    items: &'a Vec<T>,
    precedes: F,
    Ghost(order): Ghost<spec_fn(T, T) -> bool>,
) -> (result: Vec<&'a T>)
    requires
        forall|left: &&T, right: &&T| #[trigger] precedes.requires((left, right)),
        forall|left: &&T, right: &&T, answer: bool| #[trigger]
            precedes.ensures((left, right), answer) ==> answer == order(**left, **right),
    ensures
        referents(result@) == sorted(items@, order),
{
    let mut references: Vec<&'a T> = Vec::new();
    let mut index: usize = 0;
    while index < items.len()
        invariant
            index <= items@.len(),
            references@.len() == index,
            forall|earlier: int| 0 <= earlier < index ==> *references@[earlier] == items@[earlier],
        decreases items@.len() - index,
    {
        references.push(&items[index]);
        index += 1;
    }
    let ghost reference_order = |left: &T, right: &T| order(*left, *right);
    proof {
        assert(referents(references@) =~= items@);
        sorted_mapped(references@, reference_order, |item: &T| *item, order);
    }
    stable_sort(references, precedes, Ghost(reference_order))
}

/// Those of the first `count` items that are kept.
pub open spec fn kept_upto<T>(items: Seq<T>, keep: spec_fn(T) -> bool, count: nat) -> Seq<T>
    decreases count,
{
    if count == 0 {
        Seq::empty()
    } else {
        let earlier = kept_upto(items, keep, (count - 1) as nat);
        if keep(items[count - 1]) {
            earlier.push(items[count - 1])
        } else {
            earlier
        }
    }
}

/// The items that are kept, in their order.
pub open spec fn kept<T>(items: Seq<T>, keep: spec_fn(T) -> bool) -> Seq<T> {
    kept_upto(items, keep, items.len())
}

proof fn lemma_sorted_upto_length<T>(items: Seq<T>, count: nat, precedes: spec_fn(T, T) -> bool)
    ensures
        sorted_upto(items, count, precedes).len() == count,
    decreases count,
{
    if count > 0 {
        lemma_sorted_upto_length(items, (count - 1) as nat, precedes);
        lemma_insertion_point(
            sorted_upto(items, (count - 1) as nat, precedes),
            items[count - 1],
            precedes,
        );
    }
}

/// Sorting keeps the number of items.
pub proof fn sorted_length<T>(items: Seq<T>, precedes: spec_fn(T, T) -> bool)
    ensures
        sorted(items, precedes).len() == items.len(),
{
    lemma_sorted_upto_length(items, items.len(), precedes);
}

/// Sorting keeps what there is.
pub proof fn lemma_sorted_holds<T>(items: Seq<T>, count: nat, precedes: spec_fn(T, T) -> bool, item: T)
    requires
        count <= items.len(),
    ensures
        sorted_upto(items, count, precedes).contains(item) <==> (exists|place: int|
            0 <= place < count && items[place] == item),
    decreases count,
{
    if count > 0 {
        lemma_sorted_holds(items, (count - 1) as nat, precedes, item);
        let rest = sorted_upto(items, (count - 1) as nat, precedes);
        let added = items[count - 1];
        let place = insertion_point(rest, added, precedes);
        lemma_insertion_point(rest, added, precedes);
        let result = rest.insert(place, added);
        assert(result[place] == added);
        if rest.contains(item) {
            let from = choose|from: int| 0 <= from < rest.len() && rest[from] == item;
            if from < place {
                assert(result[from] == item);
            } else {
                assert(result[from + 1] == item);
            }
        }
        if result.contains(item) {
            let from = choose|from: int| 0 <= from < result.len() && result[from] == item;
            if from == place {
                assert(items[count - 1] == item);
            } else if from < place {
                assert(rest[from] == item);
            } else {
                assert(rest[from - 1] == item);
            }
        }
    }
}

/// What is kept is what there is and is to be kept.
pub proof fn lemma_kept_holds<T>(items: Seq<T>, keep: spec_fn(T) -> bool, count: nat, item: T)
    requires
        count <= items.len(),
    ensures
        kept_upto(items, keep, count).contains(item) <==> keep(item) && (exists|place: int|
            0 <= place < count && items[place] == item),
    decreases count,
{
    if count > 0 {
        lemma_kept_holds(items, keep, (count - 1) as nat, item);
        let earlier = kept_upto(items, keep, (count - 1) as nat);
        let listed = kept_upto(items, keep, count);
        if earlier.contains(item) {
            let place = choose|place: int| 0 <= place < earlier.len() && earlier[place] == item;
            assert(listed[place] == item);
        }
        if items[count - 1] == item && keep(item) {
            assert(listed[listed.len() - 1] == item);
        }
        if listed.contains(item) && !earlier.contains(item) {
            let place = choose|place: int| 0 <= place < listed.len() && listed[place] == item;
            if place < earlier.len() {
                assert(earlier[place] == item);
            }
            assert(items[count - 1] == item);
        }
        if keep(item) && exists|place: int| 0 <= place < count && items[place] == item {
            let place = choose|place: int| 0 <= place < count && items[place] == item;
            if place < count - 1 {
                assert(items[place] == item);
            }
        }
    }
}

/// Whether no two items clash.
pub open spec fn apart<T>(items: Seq<T>, clash: spec_fn(T, T) -> bool) -> bool {
    forall|left: int, right: int|
        0 <= left < right < items.len() ==> !clash(#[trigger] items[left], #[trigger] items[right])
}

/// Sorting brings no two items to clash.
pub proof fn sorted_apart<T>(
    items: Seq<T>,
    count: nat,
    precedes: spec_fn(T, T) -> bool,
    clash: spec_fn(T, T) -> bool,
)
    requires
        count <= items.len(),
        apart(items, clash),
        forall|left: T, right: T| #[trigger] clash(left, right) == clash(right, left),
    ensures
        apart(sorted_upto(items, count, precedes), clash),
    decreases count,
{
    if count > 0 {
        sorted_apart(items, (count - 1) as nat, precedes, clash);
        let rest = sorted_upto(items, (count - 1) as nat, precedes);
        let item = items[count - 1];
        let place = insertion_point(rest, item, precedes);
        lemma_insertion_point(rest, item, precedes);
        let result = rest.insert(place, item);
        assert forall|index: int| 0 <= index < rest.len() implies !clash(
            #[trigger] rest[index],
            item,
        ) by {
            lemma_sorted_holds(items, (count - 1) as nat, precedes, rest[index]);
            assert(rest.contains(rest[index]));
            let from = choose|from: int| 0 <= from < count - 1 && items[from] == rest[index];
            assert(!clash(items[from], items[count - 1]));
        }
        assert forall|left: int, right: int| 0 <= left < right < result.len() implies !clash(
            #[trigger] result[left],
            #[trigger] result[right],
        ) by {
            let before = if left < place {
                left
            } else {
                left - 1
            };
            let after = if right < place {
                right
            } else {
                right - 1
            };
            if left == place {
                assert(!clash(rest[after], item));
                assert(clash(item, rest[after]) == clash(rest[after], item));
            } else if right == place {
                assert(!clash(rest[before], item));
            } else {
                assert(!clash(rest[before], rest[after]));
            }
        }
    }
}

}
