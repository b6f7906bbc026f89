//! Exact duplicates: sequences of statements that occur more than once.
use vstd::prelude::*;
use crate::call_graph::{collect_file_nodes, file_nodes, find_owner, owner_node};
use crate::evidence::{
    callable_relation, callables, compare_callables, CallableNode, DuplicateEvidence,
    DuplicateGroup, DuplicateOccurrence, EvidenceFile, FrontendStatement,
};
use crate::model::{compare_locations, location_relation, Category, Language};
use crate::order::{
    chained, compare_numbers, compare_text, composes, flipped, insertion_point,
    lemma_insertion_point, list_order, list_order_is_total, list_relation, number_relation,
    order_pair, order_triple, sorted, sorted_mapped, sorted_upto, stable_sort, text_order,
    text_order_is_total, text_relation, total_order, Relation,
};
use crate::sums::{total, total_insert, total_member, total_part, total_push, total_update};
use crate::text::{compare_texts, join, joined, same_texts, texts};

verus! {

/// The statements of one lexical statement list.
#[derive(Debug)]
pub struct StatementStream<'a> {
    pub owner: usize,
    pub sequence: usize,
    pub language: Language,
    pub category: Category,
    pub statements: Vec<&'a FrontendStatement>,
}

/// The plain content of a stream.
pub struct StreamView {
    pub owner: usize,
    pub sequence: usize,
    pub language: Language,
    pub category: Category,
    pub statements: Seq<FrontendStatement>,
}

/// The statements that references stand for.
pub open spec fn statement_values(statements: Seq<&FrontendStatement>) -> Seq<FrontendStatement> {
    statements.map_values(|statement: &FrontendStatement| *statement)
}

impl<'a> View for StatementStream<'a> {
    type V = StreamView;

    open spec fn view(&self) -> StreamView {
        StreamView {
            owner: self.owner,
            sequence: self.sequence,
            language: self.language,
            category: self.category,
            statements: statement_values(self.statements@),
        }
    }
}

/// The plain contents of streams.
pub open spec fn stream_views(streams: Seq<StatementStream>) -> Seq<StreamView> {
    streams.map_values(|stream: StatementStream| stream@)
}

/// The order of streams: by the callable that holds the list, then by list.
pub open spec fn stream_relation(
    stream: StreamView,
    owner: usize,
    sequence: usize,
) -> Relation {
    chained(
        number_relation(stream.owner as int, owner as int),
        number_relation(stream.sequence as int, sequence as int),
    )
}

/// How many of the leading streams stand before a list, seen from the end.
pub open spec fn stream_place(streams: Seq<StreamView>, owner: usize, sequence: usize) -> int
    decreases streams.len(),
{
    if streams.len() == 0 {
        0
    } else if stream_relation(streams.last(), owner, sequence) == Relation::Before {
        streams.len() as int
    } else {
        stream_place(streams.drop_last(), owner, sequence)
    }
}

/// The streams with one more statement at the end of its own.
pub open spec fn with_statement(
    streams: Seq<StreamView>,
    file: EvidenceFile,
    statement: FrontendStatement,
    owner: usize,
) -> Seq<StreamView> {
    let place = stream_place(streams, owner, statement.sequence);
    if place < streams.len() && stream_relation(streams[place], owner, statement.sequence)
        == Relation::Same {
        streams.update(
            place,
            StreamView { statements: streams[place].statements.push(statement), ..streams[place] },
        )
    } else {
        streams.insert(
            place,
            StreamView {
                owner,
                sequence: statement.sequence,
                language: file.language,
                category: statement.caller.category,
                statements: seq![statement],
            },
        )
    }
}

/// The streams with the first `count` statements of a file. A statement whose
/// callable is not reported is left out.
pub open spec fn with_statements(
    nodes: Seq<CallableNode>,
    file: EvidenceFile,
    streams: Seq<StreamView>,
    count: nat,
) -> Seq<StreamView>
    decreases count,
{
    if count == 0 {
        streams
    } else {
        let statement = file.frontend.statements@[count - 1];
        let earlier = with_statements(nodes, file, streams, (count - 1) as nat);
        match owner_node(nodes, file, statement.caller) {
            Some(owner) => with_statement(earlier, file, statement, owner),
            None => earlier,
        }
    }
}

/// The streams of the first `count` files, in the order of their statements.
pub open spec fn streams_upto(
    nodes: Seq<CallableNode>,
    files: Seq<EvidenceFile>,
    count: nat,
) -> Seq<StreamView>
    decreases count,
{
    if count == 0 {
        Seq::empty()
    } else {
        let file = files[count - 1];
        with_statements(
            nodes,
            file,
            streams_upto(nodes, files, (count - 1) as nat),
            file.frontend.statements@.len(),
        )
    }
}

/// Whether a statement comes before another in its list.
pub open spec fn ordinal_precedes() -> spec_fn(FrontendStatement, FrontendStatement) -> bool {
    |left: FrontendStatement, right: FrontendStatement| left.ordinal <= right.ordinal
}

/// A stream with its statements in the order of the list.
pub open spec fn stream_sorted(stream: StreamView) -> StreamView {
    StreamView { statements: sorted(stream.statements, ordinal_precedes()), ..stream }
}

/// All statement lists of the files.
pub open spec fn statement_streams(files: Seq<EvidenceFile>) -> Seq<StreamView> {
    streams_upto(callables(files), files, files.len()).map_values(
        |stream: StreamView| stream_sorted(stream),
    )
}

fn insert_statement<'a>(
    streams: &mut Vec<StatementStream<'a>>,
    file: &EvidenceFile,
    statement: &'a FrontendStatement,
    owner: usize,
)
    ensures
        stream_views(final(streams)@) == with_statement(
            stream_views(old(streams)@),
            *file,
            *statement,
            owner,
        ),
{
    let ghost views = stream_views(streams@);
    let mut place: usize = streams.len();
    proof {
        assert(views.take(place as int) =~= views);
    }
    while place > 0 && compare_stream(&streams[place - 1], owner, statement.sequence)
        != Relation::Before
        invariant
            place <= streams@.len(),
            views == stream_views(streams@),
            streams@ == old(streams)@,
            stream_place(views, owner, statement.sequence) == stream_place(
                views.take(place as int),
                owner,
                statement.sequence,
            ),
        ensures
            place == stream_place(views, owner, statement.sequence),
        decreases place,
    {
        proof {
            assert(views.take(place as int).drop_last() =~= views.take(place - 1));
        }
        place -= 1;
    }
    if place < streams.len() && compare_stream(&streams[place], owner, statement.sequence)
        == Relation::Same {
        let mut stream = streams.remove(place);
        let ghost held = stream@;
        stream.statements.push(statement);
        proof {
            assert(stream@.statements =~= held.statements.push(*statement));
        }
        streams.insert(place, stream);
        proof {
            assert(stream_views(streams@) =~= with_statement(views, *file, *statement, owner));
        }
    } else {
        let mut statements: Vec<&'a FrontendStatement> = Vec::new();
        statements.push(statement);
        proof {
            assert(statement_values(statements@) =~= seq![*statement]);
        }
        streams.insert(
            place,
            StatementStream {
                owner,
                sequence: statement.sequence,
                language: file.language,
                category: statement.caller.category,
                statements,
            },
        );
        proof {
            assert(stream_views(streams@) =~= with_statement(views, *file, *statement, owner));
        }
    }
}

fn compare_stream(stream: &StatementStream, owner: usize, sequence: usize) -> (relation: Relation)
    ensures
        relation == stream_relation(stream@, owner, sequence),
{
    match compare_numbers(stream.owner, owner) {
        Relation::Same => compare_numbers(stream.sequence, sequence),
        decided => decided,
    }
}

fn ordinal_in_order(left: &&FrontendStatement, right: &&FrontendStatement) -> (answer: bool)
    ensures
        answer == ordinal_precedes()(**left, **right),
{
    left.ordinal <= right.ordinal
}

/// Whether every stream belongs to one of `count` callables.
pub open spec fn owners_valid(streams: Seq<StreamView>, count: nat) -> bool {
    forall|index: int| 0 <= index < streams.len() ==> (#[trigger] streams[index]).owner < count
}

fn collect_streams<'a>(nodes: &Vec<CallableNode>, files: &'a [EvidenceFile]) -> (streams: Vec<
    StatementStream<'a>,
>)
    requires
        nodes@ == callables(files@),
    ensures
        stream_views(streams@) == statement_streams(files@),
        owners_valid(stream_views(streams@), nodes@.len()),
{
    let mut streams: Vec<StatementStream<'a>> = Vec::new();
    let mut file_index: usize = 0;
    proof {
        assert(stream_views(streams@) =~= streams_upto(nodes@, files@, 0));
    }
    while file_index < files.len()
        invariant
            file_index <= files@.len(),
            stream_views(streams@) == streams_upto(nodes@, files@, file_index as nat),
            owners_valid(stream_views(streams@), nodes@.len()),
        decreases files@.len() - file_index,
    {
        let file = &files[file_index];
        let listed = collect_file_nodes(nodes, file);
        let ghost before = streams_upto(nodes@, files@, file_index as nat);
        let mut index: usize = 0;
        while index < file.frontend.statements.len()
            invariant
                index <= file.frontend.statements@.len(),
                listed@ == file_nodes(nodes@, *file),
                forall|index: int|
                    0 <= index < listed@.len() ==> (#[trigger] listed@[index]) < nodes@.len(),
                stream_views(streams@) == with_statements(nodes@, *file, before, index as nat),
                owners_valid(stream_views(streams@), nodes@.len()),
            decreases file.frontend.statements@.len() - index,
        {
            let statement = &file.frontend.statements[index];
            if let Some(owner) = find_owner(nodes, &listed, file, &statement.caller) {
                proof {
                    lemma_stream_place(stream_views(streams@), owner, statement.sequence);
                }
                insert_statement(&mut streams, file, statement, owner);
            }
            index += 1;
        }
        file_index += 1;
    }
    let ghost unsorted = stream_views(streams@);
    let pending = streams;
    let mut result: Vec<StatementStream<'a>> = Vec::new();
    while result.len() < pending.len()
        invariant
            unsorted == streams_upto(nodes@, files@, files@.len()),
            pending@.len() == unsorted.len(),
            result@.len() <= pending@.len(),
            forall|index: int|
                result@.len() <= index < pending@.len() ==> #[trigger] pending@[index]@
                    == unsorted[index],
            forall|index: int|
                0 <= index < result@.len() ==> (#[trigger] result@[index])@ == stream_sorted(
                    unsorted[index],
                ),
        decreases pending@.len() - result@.len(),
    {
        let place: usize = result.len();
        let stream = &pending[place];
        assert(stream@ == unsorted[place as int]);
        let mut statements: Vec<&'a FrontendStatement> = Vec::new();
        let mut index: usize = 0;
        while index < stream.statements.len()
            invariant
                index <= stream.statements@.len(),
                statements@ =~= stream.statements@.take(index as int),
            decreases stream.statements@.len() - index,
        {
            statements.push(stream.statements[index]);
            index += 1;
        }
        let ghost order = |left: &FrontendStatement, right: &FrontendStatement|
            ordinal_precedes()(*left, *right);
        proof {
            assert(statements@ =~= stream.statements@);
            sorted_mapped(
                statements@,
                order,
                |statement: &FrontendStatement| *statement,
                ordinal_precedes(),
            );
        }
        let statements = stable_sort(statements, ordinal_in_order, Ghost(order));
        let sorted_stream = StatementStream {
            owner: stream.owner,
            sequence: stream.sequence,
            language: stream.language,
            category: stream.category,
            statements,
        };
        assert(sorted_stream@ == stream_sorted(unsorted[place as int]));
        result.push(sorted_stream);
    }
    proof {
        assert(stream_views(result@) =~= statement_streams(files@));
    }
    result
}

proof fn lemma_stream_place(streams: Seq<StreamView>, owner: usize, sequence: usize)
    ensures
        0 <= stream_place(streams, owner, sequence) <= streams.len(),
    decreases streams.len(),
{
    if streams.len() > 0 {
        lemma_stream_place(streams.drop_last(), owner, sequence);
    }
}

/// What a statement adds to the counts of a duplicate.
pub open spec fn weight(statement: FrontendStatement) -> nat {
    statement.tokens@.len() + statement.scored_signals as nat
}

/// What each statement adds to the counts of a duplicate.
pub open spec fn weights(statements: Seq<FrontendStatement>) -> Seq<nat> {
    statements.map_values(|statement: FrontendStatement| weight(statement))
}

/// What the statements of each stream add up to.
pub open spec fn stream_weights(streams: Seq<StreamView>) -> Seq<nat> {
    streams.map_values(|stream: StreamView| total(weights(stream.statements)))
}

/// What the statements of each file add up to.
pub open spec fn file_weights(files: Seq<EvidenceFile>) -> Seq<nat> {
    files.map_values(|file: EvidenceFile| total(weights(file.frontend.statements@)))
}

proof fn lemma_with_statement_weight(
    streams: Seq<StreamView>,
    file: EvidenceFile,
    statement: FrontendStatement,
    owner: usize,
)
    ensures
        total(stream_weights(with_statement(streams, file, statement, owner))) == total(
            stream_weights(streams),
        ) + weight(statement),
{
    let place = stream_place(streams, owner, statement.sequence);
    lemma_stream_place(streams, owner, statement.sequence);
    let result = with_statement(streams, file, statement, owner);
    let held = stream_weights(streams);
    if place < streams.len() && stream_relation(streams[place], owner, statement.sequence)
        == Relation::Same {
        let longer = streams[place].statements.push(statement);
        assert(weights(longer) =~= weights(streams[place].statements).push(weight(statement)));
        total_push(weights(streams[place].statements), weight(statement));
        assert(stream_weights(result) =~= held.update(place, total(weights(longer))));
        total_update(held, place, total(weights(longer)));
    } else {
        let single = seq![statement];
        assert(weights(single) =~= Seq::<nat>::empty().push(weight(statement)));
        total_push(Seq::<nat>::empty(), weight(statement));
        assert(stream_weights(result) =~= held.insert(place, weight(statement)));
        total_insert(held, place, weight(statement));
    }
}

proof fn lemma_with_statements_weight(
    nodes: Seq<CallableNode>,
    file: EvidenceFile,
    streams: Seq<StreamView>,
    count: nat,
)
    requires
        count <= file.frontend.statements@.len(),
    ensures
        total(stream_weights(with_statements(nodes, file, streams, count))) <= total(
            stream_weights(streams),
        ) + total(weights(file.frontend.statements@).take(count as int)),
    decreases count,
{
    let all = weights(file.frontend.statements@);
    if count == 0 {
        assert(all.take(0) =~= Seq::<nat>::empty());
    } else {
        lemma_with_statements_weight(nodes, file, streams, (count - 1) as nat);
        let statement = file.frontend.statements@[count - 1];
        assert(all.take(count as int) =~= all.take(count - 1).push(weight(statement)));
        total_push(all.take(count - 1), weight(statement));
        if let Some(owner) = owner_node(nodes, file, statement.caller) {
            lemma_with_statement_weight(
                with_statements(nodes, file, streams, (count - 1) as nat),
                file,
                statement,
                owner,
            );
        }
    }
}

proof fn lemma_streams_weight(nodes: Seq<CallableNode>, files: Seq<EvidenceFile>, count: nat)
    requires
        count <= files.len(),
    ensures
        total(stream_weights(streams_upto(nodes, files, count))) <= total(
            file_weights(files).take(count as int),
        ),
    decreases count,
{
    let all = file_weights(files);
    if count == 0 {
        assert(stream_weights(Seq::empty()) =~= Seq::<nat>::empty());
    } else {
        lemma_streams_weight(nodes, files, (count - 1) as nat);
        let file = files[count - 1];
        let statements = file.frontend.statements@;
        lemma_with_statements_weight(
            nodes,
            file,
            streams_upto(nodes, files, (count - 1) as nat),
            statements.len(),
        );
        assert(weights(statements).take(statements.len() as int) =~= weights(statements));
        assert(all.take(count as int) =~= all.take(count - 1).push(total(weights(statements))));
        total_push(all.take(count - 1), total(weights(statements)));
    }
}

proof fn lemma_sorted_weight(statements: Seq<FrontendStatement>, count: nat)
    requires
        count <= statements.len(),
    ensures
        total(weights(sorted_upto(statements, count, ordinal_precedes()))) == total(
            weights(statements).take(count as int),
        ),
    decreases count,
{
    if count == 0 {
        assert(weights(Seq::empty()) =~= weights(statements).take(0));
    } else {
        let shorter = (count - 1) as nat;
        lemma_sorted_weight(statements, shorter);
        let rest = sorted_upto(statements, shorter, ordinal_precedes());
        let item = statements[count - 1];
        let place = insertion_point(rest, item, ordinal_precedes());
        lemma_insertion_point(rest, item, ordinal_precedes());
        assert(weights(rest.insert(place, item)) =~= weights(rest).insert(place, weight(item)));
        total_insert(weights(rest), place, weight(item));
        assert(weights(statements).take(count as int) =~= weights(statements).take(
            shorter as int,
        ).push(weight(item)));
        total_push(weights(statements).take(shorter as int), weight(item));
    }
}

proof fn lemma_stream_fits(files: Seq<EvidenceFile>, index: int)
    requires
        0 <= index < statement_streams(files).len(),
    ensures
        total(weights(statement_streams(files)[index].statements)) <= total(file_weights(files)),
{
    let nodes = callables(files);
    let unsorted = streams_upto(nodes, files, files.len());
    lemma_streams_weight(nodes, files, files.len());
    assert(file_weights(files).take(files.len() as int) =~= file_weights(files));
    total_member(stream_weights(unsorted), index);
    let statements = unsorted[index].statements;
    lemma_sorted_weight(statements, statements.len());
    assert(weights(statements).take(statements.len() as int) =~= weights(statements));
}

/// The token count of the statements from `start` to `end`.
pub open spec fn token_total(statements: Seq<FrontendStatement>, start: int, end: int) -> nat
    decreases end - start,
{
    if end <= start {
        0
    } else {
        token_total(statements, start, end - 1) + statements[end - 1].tokens@.len()
    }
}

/// The scored signals of the statements from `start` to `end`, added up.
pub open spec fn signal_total(statements: Seq<FrontendStatement>, start: int, end: int) -> nat
    decreases end - start,
{
    if end <= start {
        0
    } else {
        signal_total(statements, start, end - 1) + statements[end - 1].scored_signals as nat
    }
}

proof fn lemma_window_weight(statements: Seq<FrontendStatement>, start: int, end: int)
    requires
        0 <= start <= end <= statements.len(),
    ensures
        token_total(statements, start, end) + signal_total(statements, start, end) == total(
            weights(statements).subrange(start, end),
        ),
        token_total(statements, start, end) + signal_total(statements, start, end) <= total(
            weights(statements),
        ),
    decreases end - start,
{
    let all = weights(statements);
    total_part(all, start, end);
    if start < end {
        lemma_window_weight(statements, start, end - 1);
        assert(all.subrange(start, end) =~= all.subrange(start, end - 1).push(
            weight(statements[end - 1]),
        ));
        total_push(all.subrange(start, end - 1), weight(statements[end - 1]));
    } else {
        assert(all.subrange(start, end) =~= Seq::<nat>::empty());
    }
}

/// The tokens of a statement.
pub open spec fn statement_tokens(statement: FrontendStatement) -> Seq<Seq<char>> {
    texts(statement.tokens@)
}

/// How many statements agree in their tokens, from two places on.
pub open spec fn common_length(
    left: Seq<FrontendStatement>,
    left_start: int,
    right: Seq<FrontendStatement>,
    right_start: int,
) -> nat
    decreases left.len() - left_start,
{
    if left_start < left.len() && right_start < right.len() && statement_tokens(left[left_start])
        == statement_tokens(right[right_start]) {
        1 + common_length(left, left_start + 1, right, right_start + 1)
    } else {
        0
    }
}

/// What makes two sequences of statements the same duplicate.
pub struct SequenceKey {
    pub language: Language,
    pub category: Category,
    pub statements: Seq<Seq<Seq<char>>>,
}

/// The key of `length` statements of a stream.
pub open spec fn key_at(stream: StreamView, start: int, length: nat) -> SequenceKey {
    SequenceKey {
        language: stream.language,
        category: stream.category,
        statements: Seq::new(
            length,
            |index: int| statement_tokens(stream.statements[start + index]),
        ),
    }
}

/// The number of tokens of a key.
pub open spec fn key_tokens(key: SequenceKey) -> nat {
    total(key.statements.map_values(|statement: Seq<Seq<char>>| statement.len()))
}

/// The order in which keys are considered: more statements first, then more
/// tokens, then by language, category and tokens.
#[verifier::opaque]
pub open spec fn key_relation(left: SequenceKey, right: SequenceKey) -> Relation {
    chained(
        number_relation(right.statements.len() as int, left.statements.len() as int),
        chained(
            number_relation(key_tokens(right) as int, key_tokens(left) as int),
            chained(
                number_relation(left.language.rank(), right.language.rank()),
                chained(
                    number_relation(left.category.rank(), right.category.rank()),
                    list_relation(left.statements, right.statements, list_order(text_order())),
                ),
            ),
        ),
    )
}

/// The order of keys.
pub open spec fn key_order() -> spec_fn(SequenceKey, SequenceKey) -> Relation {
    |left: SequenceKey, right: SequenceKey| key_relation(left, right)
}

proof fn lemma_key_pair(left: SequenceKey, right: SequenceKey)
    ensures
        (key_relation(left, right) == Relation::Same) <==> left == right,
        key_relation(left, right) == flipped(key_relation(right, left)),
{
    reveal(key_relation);
    text_order_is_total();
    list_order_is_total(text_order());
    list_order_is_total(list_order(text_order()));
    order_pair(list_order(list_order(text_order())), left.statements, right.statements);
}

proof fn lemma_key_triple(left: SequenceKey, middle: SequenceKey, right: SequenceKey)
    ensures
        composes(
            key_relation(left, middle),
            key_relation(middle, right),
            key_relation(left, right),
        ),
{
    reveal(key_relation);
    text_order_is_total();
    list_order_is_total(text_order());
    list_order_is_total(list_order(text_order()));
    order_triple(
        list_order(list_order(text_order())),
        left.statements,
        middle.statements,
        right.statements,
    );
}

/// Keys are totally ordered, and only equal keys tie.
pub proof fn key_order_is_total()
    ensures
        total_order(key_order()),
{
    let order = key_order();
    assert forall|left: SequenceKey, right: SequenceKey|
        ((#[trigger] order(left, right) == Relation::Same) <==> left == right) && order(left, right)
            == flipped(order(right, left)) by {
        lemma_key_pair(left, right);
    }
    assert forall|left: SequenceKey, middle: SequenceKey, right: SequenceKey|
        composes(#[trigger] order(left, middle), #[trigger] order(middle, right), order(left, right)) by {
        lemma_key_triple(left, middle, right);
    }
    reveal(total_order);
}

/// Whether two places of the streams start a duplicate: in one language and
/// category, with at least three statements, forty tokens and two signals.
pub open spec fn duplicate_pair(
    streams: Seq<StreamView>,
    left: int,
    left_start: int,
    right: int,
    right_start: int,
) -> bool {
    let length = common_length(
        streams[left].statements,
        left_start,
        streams[right].statements,
        right_start,
    );
    &&& 0 <= left <= right < streams.len()
    &&& 0 <= left_start < streams[left].statements.len()
    &&& 0 <= right_start < streams[right].statements.len()
    &&& left == right ==> left_start < right_start
    &&& streams[left].language == streams[right].language
    &&& streams[left].category == streams[right].category
    &&& length >= 3
    &&& token_total(streams[left].statements, left_start, left_start + length) >= 40
    &&& signal_total(streams[left].statements, left_start, left_start + length) >= 2
}

/// The key that two places have in common.
pub open spec fn common_key(
    streams: Seq<StreamView>,
    left: int,
    left_start: int,
    right: int,
    right_start: int,
) -> SequenceKey {
    key_at(
        streams[left],
        left_start,
        common_length(
            streams[left].statements,
            left_start,
            streams[right].statements,
            right_start,
        ),
    )
}

/// Whether a key is common to two places that start a duplicate.
pub open spec fn is_candidate(streams: Seq<StreamView>, key: SequenceKey) -> bool {
    exists|left: int, left_start: int, right: int, right_start: int| #[trigger]
        duplicate_pair(streams, left, left_start, right, right_start) && key == common_key(
            streams,
            left,
            left_start,
            right,
            right_start,
        )
}

/// Whether each key stands before every later one.
pub open spec fn keys_ordered(keys: Seq<SequenceKey>) -> bool {
    forall|left: int, right: int|
        0 <= left < right < keys.len() ==> key_relation(#[trigger] keys[left], #[trigger] keys[right])
            == Relation::Before
}

/// Whether a list holds just the candidate keys, in their order.
pub open spec fn lists_candidates(streams: Seq<StreamView>, keys: Seq<SequenceKey>) -> bool {
    &&& keys_ordered(keys)
    &&& forall|key: SequenceKey| #[trigger] keys.contains(key) <==> is_candidate(streams, key)
}

/// The candidate keys in their order. No other list satisfies
/// `lists_candidates`.
pub open spec fn candidate_keys(streams: Seq<StreamView>) -> Seq<SequenceKey> {
    choose|keys: Seq<SequenceKey>| lists_candidates(streams, keys)
}

proof fn lemma_ordered_keys_unique(left: Seq<SequenceKey>, right: Seq<SequenceKey>)
    requires
        keys_ordered(left),
        keys_ordered(right),
        forall|key: SequenceKey| #[trigger] left.contains(key) <==> right.contains(key),
    ensures
        left == right,
    decreases left.len(),
{
    if left.len() == 0 {
        if right.len() > 0 {
            assert(right.contains(right[0]));
            assert(left.contains(right[0]));
        }
        assert(left =~= right);
    } else {
        assert(left.contains(left[0]));
        assert(right.contains(left[0]));
        assert(right.contains(right[0]));
        assert(left.contains(right[0]));
        let in_right = choose|index: int| 0 <= index < right.len() && right[index] == left[0];
        let in_left = choose|index: int| 0 <= index < left.len() && left[index] == right[0];
        lemma_key_pair(left[0], right[0]);
        if in_right > 0 && in_left > 0 {
            assert(key_relation(right[0], right[in_right]) == Relation::Before);
            assert(key_relation(left[0], left[in_left]) == Relation::Before);
        }
        assert(left[0] == right[0]);
        let left_rest = left.skip(1);
        let right_rest = right.skip(1);
        assert forall|key: SequenceKey| #[trigger] left_rest.contains(key) <==> right_rest.contains(
            key,
        ) by {
            lemma_skip_contains(left, key);
            lemma_skip_contains(right, key);
        }
        lemma_ordered_keys_unique(left_rest, right_rest);
        assert(left =~= seq![left[0]] + left_rest);
        assert(right =~= seq![right[0]] + right_rest);
    }
}

proof fn lemma_skip_contains(keys: Seq<SequenceKey>, key: SequenceKey)
    requires
        keys_ordered(keys),
        keys.len() > 0,
    ensures
        keys.skip(1).contains(key) <==> (keys.contains(key) && key != keys[0]),
{
    if keys.skip(1).contains(key) {
        let index = choose|index: int| 0 <= index < keys.skip(1).len() && keys.skip(1)[index] == key;
        assert(keys[index + 1] == key);
        assert(key_relation(keys[0], keys[index + 1]) == Relation::Before);
        lemma_key_pair(keys[0], key);
    }
    if keys.contains(key) && key != keys[0] {
        let index = choose|index: int| 0 <= index < keys.len() && keys[index] == key;
        assert(keys.skip(1)[index - 1] == key);
    }
}

fn common_prefix(
    left: &StatementStream,
    left_start: usize,
    right: &StatementStream,
    right_start: usize,
) -> (length: usize)
    requires
        left_start <= left@.statements.len(),
        right_start <= right@.statements.len(),
    ensures
        length == common_length(
            left@.statements,
            left_start as int,
            right@.statements,
            right_start as int,
        ),
        left_start + length <= left@.statements.len(),
        right_start + length <= right@.statements.len(),
{
    let mut length: usize = 0;
    while length < left.statements.len() - left_start && length < right.statements.len()
        - right_start && same_texts(
        &left.statements[left_start + length].tokens,
        &right.statements[right_start + length].tokens,
    )
        invariant
            left_start + length <= left@.statements.len(),
            right_start + length <= right@.statements.len(),
            length + common_length(
                left@.statements,
                left_start + length,
                right@.statements,
                right_start + length,
            ) == common_length(
                left@.statements,
                left_start as int,
                right@.statements,
                right_start as int,
            ),
        decreases left@.statements.len() - left_start - length,
    {
        length += 1;
    }
    length
}

/// Whether the counts of every stream fit into a machine word.
pub open spec fn streams_fit(streams: Seq<StreamView>) -> bool {
    forall|index: int|
        0 <= index < streams.len() ==> total(weights((#[trigger] streams[index]).statements))
            <= usize::MAX
}

fn count_tokens(stream: &StatementStream, start: usize, end: usize) -> (count: usize)
    requires
        start <= end <= stream@.statements.len(),
        total(weights(stream@.statements)) <= usize::MAX,
    ensures
        count == token_total(stream@.statements, start as int, end as int),
{
    let mut count: usize = 0;
    let mut index: usize = start;
    while index < end
        invariant
            start <= index <= end <= stream@.statements.len(),
            total(weights(stream@.statements)) <= usize::MAX,
            count == token_total(stream@.statements, start as int, index as int),
        decreases end - index,
    {
        proof {
            lemma_window_weight(stream@.statements, start as int, index + 1);
        }
        count = count + stream.statements[index].tokens.len();
        index += 1;
    }
    count
}

fn count_signals(stream: &StatementStream, start: usize, end: usize) -> (count: usize)
    requires
        start <= end <= stream@.statements.len(),
        total(weights(stream@.statements)) <= usize::MAX,
    ensures
        count == signal_total(stream@.statements, start as int, end as int),
{
    let mut count: usize = 0;
    let mut index: usize = start;
    while index < end
        invariant
            start <= index <= end <= stream@.statements.len(),
            total(weights(stream@.statements)) <= usize::MAX,
            count == signal_total(stream@.statements, start as int, index as int),
        decreases end - index,
    {
        proof {
            lemma_window_weight(stream@.statements, start as int, index + 1);
        }
        count = count + stream.statements[index].scored_signals;
        index += 1;
    }
    count
}

/// A sequence of statements, by its place in the streams.
#[derive(Clone, Copy, Debug)]
pub struct SequenceWindow {
    pub stream: usize,
    pub start: usize,
    pub length: usize,
}

/// Whether a window lies within its stream.
pub open spec fn window_valid(streams: Seq<StreamView>, window: SequenceWindow) -> bool {
    &&& window.stream < streams.len()
    &&& window.start + window.length <= streams[window.stream as int].statements.len()
}

/// The key of a window.
pub open spec fn window_key(streams: Seq<StreamView>, window: SequenceWindow) -> SequenceKey {
    key_at(streams[window.stream as int], window.start as int, window.length as nat)
}

/// The keys of windows.
pub open spec fn window_keys(
    streams: Seq<StreamView>,
    windows: Seq<SequenceWindow>,
) -> Seq<SequenceKey> {
    windows.map_values(|window: SequenceWindow| window_key(streams, window))
}

/// Whether all windows lie within their streams.
pub open spec fn windows_valid(streams: Seq<StreamView>, windows: Seq<SequenceWindow>) -> bool {
    forall|index: int|
        0 <= index < windows.len() ==> window_valid(streams, #[trigger] windows[index])
}

proof fn lemma_key_tokens(stream: StreamView, start: int, length: nat)
    requires
        0 <= start,
        start + length <= stream.statements.len(),
    ensures
        key_tokens(key_at(stream, start, length)) == token_total(
            stream.statements,
            start,
            start + length,
        ),
    decreases length,
{
    let measure = |statement: Seq<Seq<char>>| statement.len();
    let counts = key_at(stream, start, length).statements.map_values(measure);
    if length > 0 {
        lemma_key_tokens(stream, start, (length - 1) as nat);
        let shorter = key_at(stream, start, (length - 1) as nat).statements.map_values(measure);
        assert(counts.drop_last() =~= shorter);
    }
}

fn compare_windows(
    streams: &Vec<StatementStream>,
    left: SequenceWindow,
    right: SequenceWindow,
) -> (relation: Relation)
    requires
        streams_fit(stream_views(streams@)),
        window_valid(stream_views(streams@), left),
        window_valid(stream_views(streams@), right),
    ensures
        relation == key_relation(
            window_key(stream_views(streams@), left),
            window_key(stream_views(streams@), right),
        ),
{
    let ghost views = stream_views(streams@);
    proof {
        reveal(key_relation);
        lemma_key_tokens(views[left.stream as int], left.start as int, left.length as nat);
        lemma_key_tokens(views[right.stream as int], right.start as int, right.length as nat);
    }
    let lengths = compare_numbers(right.length, left.length);
    if lengths != Relation::Same {
        return lengths;
    }
    let left_stream = &streams[left.stream];
    let right_stream = &streams[right.stream];
    assert(left_stream@ == views[left.stream as int]);
    assert(right_stream@ == views[right.stream as int]);
    let left_length: usize = left_stream.statements.len();
    let right_length: usize = right_stream.statements.len();
    let tokens = compare_numbers(
        count_tokens(right_stream, right.start, right.start + right.length),
        count_tokens(left_stream, left.start, left.start + left.length),
    );
    if tokens != Relation::Same {
        return tokens;
    }
    let languages = compare_numbers(
        left_stream.language.position(),
        right_stream.language.position(),
    );
    if languages != Relation::Same {
        return languages;
    }
    let categories = compare_numbers(
        left_stream.category.position(),
        right_stream.category.position(),
    );
    if categories != Relation::Same {
        return categories;
    }
    let ghost left_lists = window_key(views, left).statements;
    let ghost right_lists = window_key(views, right).statements;
    let ghost order = list_order(text_order());
    let mut index: usize = 0;
    proof {
        assert(left_lists.skip(0) =~= left_lists);
        assert(right_lists.skip(0) =~= right_lists);
    }
    while index < left.length
        invariant
            index <= left.length,
            left.length == right.length,
            views == stream_views(streams@),
            left_stream@ == views[left.stream as int],
            right_stream@ == views[right.stream as int],
            window_valid(views, left),
            window_valid(views, right),
            left_lists == window_key(views, left).statements,
            right_lists == window_key(views, right).statements,
            order == list_order(text_order()),
            left_length == left_stream@.statements.len(),
            right_length == right_stream@.statements.len(),
            key_relation(window_key(views, left), window_key(views, right)) == list_relation(
                left_lists.skip(index as int),
                right_lists.skip(index as int),
                order,
            ),
        decreases left.length - index,
    {
        proof {
            assert(left_lists.skip(index as int).skip(1) =~= left_lists.skip(index + 1));
            assert(right_lists.skip(index as int).skip(1) =~= right_lists.skip(index + 1));
        }
        let relation = compare_texts(
            &left_stream.statements[left.start + index].tokens,
            &right_stream.statements[right.start + index].tokens,
        );
        assert(relation == order(left_lists[index as int], right_lists[index as int]));
        if relation != Relation::Same {
            return relation;
        }
        index += 1;
    }
    Relation::Same
}

proof fn lemma_key_inserted(keys: Seq<SequenceKey>, place: int, key: SequenceKey)
    requires
        keys_ordered(keys),
        0 <= place <= keys.len(),
        place > 0 ==> key_relation(keys[place - 1], key) == Relation::Before,
        place < keys.len() ==> key_relation(key, keys[place]) == Relation::Before,
    ensures
        keys_ordered(keys.insert(place, key)),
        forall|other: SequenceKey| #[trigger]
            keys.insert(place, key).contains(other) <==> (keys.contains(other) || other == key),
{
    let result = keys.insert(place, key);
    assert forall|left: int, right: int| 0 <= left < right < result.len() implies key_relation(
        #[trigger] result[left],
        #[trigger] result[right],
    ) == Relation::Before by {
        if left == place {
            if right - 1 > place {
                assert(key_relation(keys[place], keys[right - 1]) == Relation::Before);
                lemma_key_triple(key, keys[place], keys[right - 1]);
            }
        } else if right == place {
            if left < place - 1 {
                assert(key_relation(keys[left], keys[place - 1]) == Relation::Before);
                lemma_key_triple(keys[left], keys[place - 1], key);
            }
        } else {
            let before = if left < place {
                left
            } else {
                left - 1
            };
            let after = if right < place {
                right
            } else {
                right - 1
            };
            assert(key_relation(keys[before], keys[after]) == Relation::Before);
        }
    }
    assert forall|other: SequenceKey| #[trigger] result.contains(other) <==> (keys.contains(other)
        || other == key) by {
        if keys.contains(other) {
            let index = choose|index: int| 0 <= index < keys.len() && keys[index] == other;
            assert(result[if index < place {
                index
            } else {
                index + 1
            }] == other);
        }
        if other == key {
            assert(result[place] == other);
        }
        if result.contains(other) {
            let index = choose|index: int| 0 <= index < result.len() && result[index] == other;
            if index < place {
                assert(keys[index] == other);
            } else if index > place {
                assert(keys[index - 1] == other);
            }
        }
    }
}

fn insert_window(
    streams: &Vec<StatementStream>,
    windows: &mut Vec<SequenceWindow>,
    window: SequenceWindow,
)
    requires
        streams_fit(stream_views(streams@)),
        window_valid(stream_views(streams@), window),
        windows_valid(stream_views(streams@), old(windows)@),
        keys_ordered(window_keys(stream_views(streams@), old(windows)@)),
    ensures
        windows_valid(stream_views(streams@), final(windows)@),
        keys_ordered(window_keys(stream_views(streams@), final(windows)@)),
        forall|key: SequenceKey| #[trigger]
            window_keys(stream_views(streams@), final(windows)@).contains(key) <==> (window_keys(
                stream_views(streams@),
                old(windows)@,
            ).contains(key) || key == window_key(stream_views(streams@), window)),
{
    let ghost views = stream_views(streams@);
    let ghost keys = window_keys(views, windows@);
    let ghost key = window_key(views, window);
    let mut place: usize = windows.len();
    while place > 0
        invariant
            place <= windows@.len(),
            windows@ == old(windows)@,
            views == stream_views(streams@),
            keys == window_keys(views, windows@),
            key == window_key(views, window),
            streams_fit(views),
            window_valid(views, window),
            windows_valid(views, windows@),
            keys_ordered(keys),
            place < windows@.len() ==> key_relation(key, keys[place as int]) == Relation::Before,
        ensures
            place > 0 ==> key_relation(keys[place - 1], key) == Relation::Before,
        decreases place,
    {
        assert(window_valid(views, windows@[place - 1]));
        let relation = compare_windows(streams, windows[place - 1], window);
        proof {
            lemma_key_pair(keys[place - 1], key);
            lemma_key_pair(key, keys[place - 1]);
        }
        if relation == Relation::Same {
            proof {
                assert(keys.contains(keys[place - 1]));
            }
            return ;
        }
        if relation == Relation::Before {
            break ;
        }
        place -= 1;
    }
    proof {
        lemma_key_inserted(keys, place as int, key);
    }
    windows.insert(place, window);
    proof {
        assert(window_keys(views, windows@) =~= keys.insert(place as int, key));
    }
}

/// Whether the pairs up to a place have been looked at, all of them with a
/// smaller `left`, `right`, `left_start` or `right_start`, in this order.
spec fn pairs_done(
    streams: Seq<StreamView>,
    keys: Seq<SequenceKey>,
    left: int,
    right: int,
    left_start: int,
    right_start: int,
) -> bool {
    forall|l: int, ls: int, r: int, rs: int| #[trigger]
        duplicate_pair(streams, l, ls, r, rs) && (l < left || l == left && (r < right || r == right
            && (ls < left_start || ls == left_start && rs < right_start))) ==> keys.contains(
            common_key(streams, l, ls, r, rs),
        )
}

/// Whether every key is a candidate.
spec fn keys_found(streams: Seq<StreamView>, keys: Seq<SequenceKey>) -> bool {
    forall|key: SequenceKey| #[trigger] keys.contains(key) ==> is_candidate(streams, key)
}

fn compare_places(
    streams: &Vec<StatementStream>,
    windows: &mut Vec<SequenceWindow>,
    left: usize,
    right: usize,
    left_start: usize,
    right_start: usize,
)
    requires
        streams_fit(stream_views(streams@)),
        windows_valid(stream_views(streams@), old(windows)@),
        keys_ordered(window_keys(stream_views(streams@), old(windows)@)),
        keys_found(stream_views(streams@), window_keys(stream_views(streams@), old(windows)@)),
        left <= right < streams@.len(),
        left_start < streams@[left as int]@.statements.len(),
        right_start < streams@[right as int]@.statements.len(),
        left == right ==> left_start < right_start,
        streams@[left as int]@.language == streams@[right as int]@.language,
        streams@[left as int]@.category == streams@[right as int]@.category,
        pairs_done(
            stream_views(streams@),
            window_keys(stream_views(streams@), old(windows)@),
            left as int,
            right as int,
            left_start as int,
            right_start as int,
        ),
    ensures
        windows_valid(stream_views(streams@), final(windows)@),
        keys_ordered(window_keys(stream_views(streams@), final(windows)@)),
        keys_found(stream_views(streams@), window_keys(stream_views(streams@), final(windows)@)),
        pairs_done(
            stream_views(streams@),
            window_keys(stream_views(streams@), final(windows)@),
            left as int,
            right as int,
            left_start as int,
            right_start + 1,
        ),
{
    let ghost views = stream_views(streams@);
    let left_stream = &streams[left];
    let right_stream = &streams[right];
    assert(left_stream@ == views[left as int]);
    assert(right_stream@ == views[right as int]);
    let limit: usize = left_stream.statements.len();
    let length: usize = common_prefix(left_stream, left_start, right_stream, right_start);
    if length < 3 {
        return ;
    }
    let tokens: usize = count_tokens(left_stream, left_start, left_start + length);
    let signals: usize = count_signals(left_stream, left_start, left_start + length);
    if tokens < 40 || signals < 2 {
        return ;
    }
    let window = SequenceWindow { stream: left, start: left_start, length };
    proof {
        assert(duplicate_pair(
            views,
            left as int,
            left_start as int,
            right as int,
            right_start as int,
        ));
        assert(window_key(views, window) == common_key(
            views,
            left as int,
            left_start as int,
            right as int,
            right_start as int,
        ));
    }
    insert_window(streams, windows, window);
}

fn find_candidates(streams: &Vec<StatementStream>) -> (windows: Vec<SequenceWindow>)
    requires
        streams_fit(stream_views(streams@)),
    ensures
        windows_valid(stream_views(streams@), windows@),
        window_keys(stream_views(streams@), windows@) == candidate_keys(stream_views(streams@)),
        lists_candidates(stream_views(streams@), candidate_keys(stream_views(streams@))),
{
    let ghost views = stream_views(streams@);
    let mut windows: Vec<SequenceWindow> = Vec::new();
    proof {
        assert(window_keys(views, windows@) =~= Seq::<SequenceKey>::empty());
    }
    let mut left: usize = 0;
    while left < streams.len()
        invariant
            left <= streams@.len(),
            views == stream_views(streams@),
            streams_fit(views),
            windows_valid(views, windows@),
            keys_ordered(window_keys(views, windows@)),
            keys_found(views, window_keys(views, windows@)),
            pairs_done(views, window_keys(views, windows@), left as int, 0, 0, 0),
        decreases streams@.len() - left,
    {
        let mut right: usize = left;
        while right < streams.len()
            invariant
                left <= right <= streams@.len(),
                left < streams@.len(),
                views == stream_views(streams@),
                streams_fit(views),
                windows_valid(views, windows@),
                keys_ordered(window_keys(views, windows@)),
                keys_found(views, window_keys(views, windows@)),
                pairs_done(views, window_keys(views, windows@), left as int, right as int, 0, 0),
            decreases streams@.len() - right,
        {
            if streams[left].language == streams[right].language && streams[left].category
                == streams[right].category {
                compare_streams(streams, &mut windows, left, right);
            } else {
                assert(views[left as int] == streams@[left as int]@);
                assert(views[right as int] == streams@[right as int]@);
            }
            right += 1;
        }
        left += 1;
    }
    proof {
        let keys = window_keys(views, windows@);
        assert forall|key: SequenceKey| #[trigger] keys.contains(key) <==> is_candidate(
            views,
            key,
        ) by {}
        assert(lists_candidates(views, keys));
        let listed = candidate_keys(views);
        assert(lists_candidates(views, listed));
        lemma_ordered_keys_unique(keys, listed);
    }
    windows
}

fn compare_streams(
    streams: &Vec<StatementStream>,
    windows: &mut Vec<SequenceWindow>,
    left: usize,
    right: usize,
)
    requires
        streams_fit(stream_views(streams@)),
        windows_valid(stream_views(streams@), old(windows)@),
        keys_ordered(window_keys(stream_views(streams@), old(windows)@)),
        keys_found(stream_views(streams@), window_keys(stream_views(streams@), old(windows)@)),
        left <= right < streams@.len(),
        streams@[left as int]@.language == streams@[right as int]@.language,
        streams@[left as int]@.category == streams@[right as int]@.category,
        pairs_done(
            stream_views(streams@),
            window_keys(stream_views(streams@), old(windows)@),
            left as int,
            right as int,
            0,
            0,
        ),
    ensures
        windows_valid(stream_views(streams@), final(windows)@),
        keys_ordered(window_keys(stream_views(streams@), final(windows)@)),
        keys_found(stream_views(streams@), window_keys(stream_views(streams@), final(windows)@)),
        pairs_done(
            stream_views(streams@),
            window_keys(stream_views(streams@), final(windows)@),
            left as int,
            right + 1,
            0,
            0,
        ),
{
    let ghost views = stream_views(streams@);
    let left_length: usize = streams[left].statements.len();
    let right_length: usize = streams[right].statements.len();
    assert(views[left as int] == streams@[left as int]@);
    assert(views[right as int] == streams@[right as int]@);
    let mut left_start: usize = 0;
    while left_start < left_length
        invariant
            left <= right < streams@.len(),
            views == stream_views(streams@),
            views[left as int] == streams@[left as int]@,
            views[right as int] == streams@[right as int]@,
            views[left as int].language == views[right as int].language,
            views[left as int].category == views[right as int].category,
            left_length == views[left as int].statements.len(),
            right_length == views[right as int].statements.len(),
            left_start <= left_length,
            streams_fit(views),
            windows_valid(views, windows@),
            keys_ordered(window_keys(views, windows@)),
            keys_found(views, window_keys(views, windows@)),
            pairs_done(
                views,
                window_keys(views, windows@),
                left as int,
                right as int,
                left_start as int,
                0,
            ),
        decreases left_length - left_start,
    {
        let mut right_start: usize = if left == right {
            left_start + 1
        } else {
            0
        };
        while right_start < right_length
            invariant
                left <= right < streams@.len(),
                views == stream_views(streams@),
                views[left as int] == streams@[left as int]@,
                views[right as int] == streams@[right as int]@,
                views[left as int].language == views[right as int].language,
                views[left as int].category == views[right as int].category,
                left_length == views[left as int].statements.len(),
                right_length == views[right as int].statements.len(),
                left_start < left_length,
                left == right ==> left_start < right_start,
                streams_fit(views),
                windows_valid(views, windows@),
                keys_ordered(window_keys(views, windows@)),
                keys_found(views, window_keys(views, windows@)),
                pairs_done(
                    views,
                    window_keys(views, windows@),
                    left as int,
                    right as int,
                    left_start as int,
                    right_start as int,
                ),
            decreases right_length - right_start,
        {
            compare_places(streams, windows, left, right, left_start, right_start);
            right_start += 1;
        }
        left_start += 1;
    }
}

/// Whether a key is part of a longer one.
pub open spec fn contained(larger: SequenceKey, smaller: SequenceKey) -> bool {
    &&& larger.language == smaller.language
    &&& larger.category == smaller.category
    &&& larger.statements.len() > smaller.statements.len()
    &&& exists|start: int|
        0 <= start <= larger.statements.len() - smaller.statements.len()
            && #[trigger] larger.statements.subrange(start, start + smaller.statements.len())
            == smaller.statements
}

/// Whether one of the keys is longer than `key` and has it as a part.
pub open spec fn contained_in_any(keys: Seq<SequenceKey>, key: SequenceKey) -> bool {
    exists|index: int| 0 <= index < keys.len() && contained(#[trigger] keys[index], key)
}

/// Those of the first `count` keys that are no part of an earlier one.
pub open spec fn accepted_upto(keys: Seq<SequenceKey>, count: nat) -> Seq<SequenceKey>
    decreases count,
{
    if count == 0 {
        Seq::empty()
    } else {
        let earlier = accepted_upto(keys, (count - 1) as nat);
        if contained_in_any(earlier, keys[count - 1]) {
            earlier
        } else {
            earlier.push(keys[count - 1])
        }
    }
}

/// The keys that are reported.
pub open spec fn accepted_keys(streams: Seq<StreamView>) -> Seq<SequenceKey> {
    accepted_upto(candidate_keys(streams), candidate_keys(streams).len())
}

/// Whether a key occurs at a place of a stream.
pub open spec fn occurs_at(stream: StreamView, start: int, key: SequenceKey) -> bool {
    &&& stream.language == key.language
    &&& stream.category == key.category
    &&& start + key.statements.len() <= stream.statements.len()
    &&& key_at(stream, start, key.statements.len()).statements == key.statements
}

/// Where a key occurs among the first `count` places of the stream `stream`.
pub open spec fn starts_upto(
    streams: Seq<StreamView>,
    key: SequenceKey,
    stream: int,
    count: nat,
) -> Seq<(int, int)>
    decreases count,
{
    if count == 0 {
        Seq::empty()
    } else {
        let earlier = starts_upto(streams, key, stream, (count - 1) as nat);
        if occurs_at(streams[stream], count - 1, key) {
            earlier.push((stream, count - 1))
        } else {
            earlier
        }
    }
}

/// Where a key occurs in the first `count` streams: stream and start.
pub open spec fn occurrences_upto(
    streams: Seq<StreamView>,
    key: SequenceKey,
    count: nat,
) -> Seq<(int, int)>
    decreases count,
{
    if count == 0 {
        Seq::empty()
    } else {
        occurrences_upto(streams, key, (count - 1) as nat) + starts_upto(
            streams,
            key,
            count - 1,
            streams[count - 1].statements.len(),
        )
    }
}

/// Where a key occurs: stream and start.
pub open spec fn occurrences(streams: Seq<StreamView>, key: SequenceKey) -> Seq<(int, int)> {
    occurrences_upto(streams, key, streams.len())
}

/// One occurrence as it is reported.
pub open spec fn reported_occurrence(
    nodes: Seq<CallableNode>,
    streams: Seq<StreamView>,
    length: nat,
    place: (int, int),
) -> DuplicateOccurrence {
    DuplicateOccurrence {
        callable: nodes[streams[place.0].owner as int].reference,
        start: streams[place.0].statements[place.1].location,
        end: streams[place.0].statements[place.1 + length - 1].location,
    }
}

/// Whether an occurrence may stand before another: by callable, then by start.
pub open spec fn occurrence_precedes() -> spec_fn(DuplicateOccurrence, DuplicateOccurrence) -> bool {
    |left: DuplicateOccurrence, right: DuplicateOccurrence|
        chained(
            callable_relation(left.callable, right.callable),
            location_relation(left.start, right.start),
        ) != Relation::After
}

/// The plain content of a group.
pub struct DuplicateGroupView {
    pub language: Language,
    pub category: Category,
    pub statement_count: nat,
    pub tokens: nat,
    pub scored_signals: nat,
    pub fingerprint: Seq<char>,
    pub occurrences: Seq<DuplicateOccurrence>,
}

impl View for DuplicateGroup {
    type V = DuplicateGroupView;

    open spec fn view(&self) -> DuplicateGroupView {
        DuplicateGroupView {
            language: self.language,
            category: self.category,
            statement_count: self.statement_count as nat,
            tokens: self.tokens as nat,
            scored_signals: self.scored_signals as nat,
            fingerprint: self.fingerprint@,
            occurrences: self.occurrences@,
        }
    }
}

/// The plain contents of groups.
pub open spec fn group_views(groups: Seq<DuplicateGroup>) -> Seq<DuplicateGroupView> {
    groups.map_values(|group: DuplicateGroup| group@)
}

/// The tokens of a key as one text: tokens one space apart, statements set
/// apart by a record separator.
pub open spec fn key_fingerprint(key: SequenceKey) -> Seq<char> {
    joined(
        key.statements.map_values(|statement: Seq<Seq<char>>| joined(statement, " "@)),
        " \u{241e} "@,
    )
}

/// The group of a key. Signals are those of the first occurrence.
pub open spec fn key_group(
    nodes: Seq<CallableNode>,
    streams: Seq<StreamView>,
    key: SequenceKey,
) -> DuplicateGroupView {
    let places = occurrences(streams, key);
    let length = key.statements.len();
    DuplicateGroupView {
        language: key.language,
        category: key.category,
        statement_count: length,
        tokens: key_tokens(key),
        scored_signals: signal_total(
            streams[places[0].0].statements,
            places[0].1,
            places[0].1 + length,
        ),
        fingerprint: key_fingerprint(key),
        occurrences: sorted(
            places.map_values(
                |place: (int, int)| reported_occurrence(nodes, streams, length, place),
            ),
            occurrence_precedes(),
        ),
    }
}

/// The groups of keys, in the order of the keys.
pub open spec fn key_groups(
    nodes: Seq<CallableNode>,
    streams: Seq<StreamView>,
    keys: Seq<SequenceKey>,
) -> Seq<DuplicateGroupView> {
    keys.map_values(|key: SequenceKey| key_group(nodes, streams, key))
}

/// Whether a group may stand before another: more tokens first, then by
/// language, category and fingerprint.
pub open spec fn group_precedes() -> spec_fn(DuplicateGroupView, DuplicateGroupView) -> bool {
    |left: DuplicateGroupView, right: DuplicateGroupView|
        chained(
            number_relation(right.tokens as int, left.tokens as int),
            chained(
                number_relation(left.language.rank(), right.language.rank()),
                chained(
                    number_relation(left.category.rank(), right.category.rank()),
                    text_relation(left.fingerprint, right.fingerprint),
                ),
            ),
        ) != Relation::After
}

/// The duplicates of the files, in the order in which they are reported.
pub open spec fn duplicate_groups(files: Seq<EvidenceFile>) -> Seq<DuplicateGroupView> {
    let streams = statement_streams(files);
    sorted(key_groups(callables(files), streams, accepted_keys(streams)), group_precedes())
}

proof fn lemma_common_tokens(
    left: Seq<FrontendStatement>,
    left_start: int,
    right: Seq<FrontendStatement>,
    right_start: int,
    index: int,
)
    requires
        0 <= left_start,
        0 <= right_start,
        0 <= index < common_length(left, left_start, right, right_start),
    ensures
        left_start + index < left.len(),
        right_start + index < right.len(),
        statement_tokens(left[left_start + index]) == statement_tokens(right[right_start + index]),
    decreases index,
{
    if index > 0 {
        lemma_common_tokens(left, left_start + 1, right, right_start + 1, index - 1);
    }
}

proof fn lemma_start_listed(
    streams: Seq<StreamView>,
    key: SequenceKey,
    stream: int,
    count: nat,
    start: int,
)
    requires
        0 <= start < count,
        occurs_at(streams[stream], start, key),
    ensures
        starts_upto(streams, key, stream, count).contains((stream, start)),
    decreases count,
{
    let earlier = starts_upto(streams, key, stream, (count - 1) as nat);
    let listed = starts_upto(streams, key, stream, count);
    if start == count - 1 {
        assert(listed[listed.len() - 1] == (stream, start));
    } else {
        lemma_start_listed(streams, key, stream, (count - 1) as nat, start);
        let index = choose|index: int|
            0 <= index < earlier.len() && earlier[index] == (stream, start);
        assert(listed[index] == (stream, start));
    }
}

proof fn lemma_occurrence_listed(
    streams: Seq<StreamView>,
    key: SequenceKey,
    count: nat,
    stream: int,
    start: int,
)
    requires
        0 <= stream < count <= streams.len(),
        0 <= start < streams[stream].statements.len(),
        occurs_at(streams[stream], start, key),
    ensures
        occurrences_upto(streams, key, count).contains((stream, start)),
    decreases count,
{
    let earlier = occurrences_upto(streams, key, (count - 1) as nat);
    let own = starts_upto(streams, key, count - 1, streams[count - 1].statements.len());
    let listed = occurrences_upto(streams, key, count);
    if stream == count - 1 {
        lemma_start_listed(streams, key, stream, streams[stream].statements.len(), start);
        let index = choose|index: int| 0 <= index < own.len() && own[index] == (stream, start);
        assert(listed[earlier.len() + index] == (stream, start));
    } else {
        lemma_occurrence_listed(streams, key, (count - 1) as nat, stream, start);
        let index = choose|index: int|
            0 <= index < earlier.len() && earlier[index] == (stream, start);
        assert(listed[index] == (stream, start));
    }
}

/// Whether places lie in the streams and the key occurs at each.
pub open spec fn places_valid(
    streams: Seq<StreamView>,
    key: SequenceKey,
    places: Seq<(int, int)>,
) -> bool {
    forall|index: int|
        0 <= index < places.len() ==> {
            &&& 0 <= (#[trigger] places[index]).0 < streams.len()
            &&& 0 <= places[index].1
            &&& occurs_at(streams[places[index].0], places[index].1, key)
        }
}

proof fn lemma_starts_valid(streams: Seq<StreamView>, key: SequenceKey, stream: int, count: nat)
    requires
        0 <= stream < streams.len(),
    ensures
        places_valid(streams, key, starts_upto(streams, key, stream, count)),
    decreases count,
{
    if count > 0 {
        lemma_starts_valid(streams, key, stream, (count - 1) as nat);
    }
}

proof fn lemma_occurrences_valid(streams: Seq<StreamView>, key: SequenceKey, count: nat)
    requires
        count <= streams.len(),
    ensures
        places_valid(streams, key, occurrences_upto(streams, key, count)),
    decreases count,
{
    if count > 0 {
        lemma_occurrences_valid(streams, key, (count - 1) as nat);
        lemma_starts_valid(streams, key, count - 1, streams[count - 1].statements.len());
    }
}

/// A duplicate occurs at two places at least: every candidate key does.
pub proof fn candidates_occur_twice(streams: Seq<StreamView>, key: SequenceKey)
    requires
        is_candidate(streams, key),
    ensures
        occurrences(streams, key).len() >= 2,
        key.statements.len() >= 3,
        key_tokens(key) >= 40,
{
    let (left, left_start, right, right_start) = choose|
        left: int,
        left_start: int,
        right: int,
        right_start: int,
    | #[trigger]
        duplicate_pair(streams, left, left_start, right, right_start) && key == common_key(
            streams,
            left,
            left_start,
            right,
            right_start,
        );
    let left_statements = streams[left].statements;
    let right_statements = streams[right].statements;
    let length = common_length(left_statements, left_start, right_statements, right_start);
    lemma_common_tokens(left_statements, left_start, right_statements, right_start, length - 1);
    lemma_key_tokens(streams[left], left_start, length);
    assert(key_at(streams[left], left_start, length).statements =~= key.statements);
    assert forall|index: int| 0 <= index < length implies statement_tokens(
        right_statements[right_start + index],
    ) == #[trigger] key.statements[index] by {
        lemma_common_tokens(left_statements, left_start, right_statements, right_start, index);
    }
    assert(key_at(streams[right], right_start, length).statements =~= key.statements);
    lemma_occurrence_listed(streams, key, streams.len(), left, left_start);
    lemma_occurrence_listed(streams, key, streams.len(), right, right_start);
    let places = occurrences(streams, key);
    let first = choose|index: int|
        0 <= index < places.len() && places[index] == (left, left_start);
    let second = choose|index: int|
        0 <= index < places.len() && places[index] == (right, right_start);
    assert(first != second);
}

/// Whether the statements of `window` stand at a place of a stream, seen from
/// its `offset`-th statement on.
fn tokens_match(
    streams: &Vec<StatementStream>,
    stream: usize,
    start: usize,
    window: SequenceWindow,
    offset: usize,
    length: usize,
) -> (answer: bool)
    requires
        window_valid(stream_views(streams@), window),
        stream < streams@.len(),
        start + length <= streams@[stream as int]@.statements.len(),
        offset + length <= window.length,
    ensures
        answer == (key_at(streams@[stream as int]@, start as int, length as nat).statements
            == window_key(stream_views(streams@), window).statements.subrange(
            offset as int,
            offset + length,
        )),
{
    let ghost views = stream_views(streams@);
    let ghost found = key_at(streams@[stream as int]@, start as int, length as nat).statements;
    let ghost sought = window_key(views, window).statements.subrange(
        offset as int,
        offset + length,
    );
    let own = &streams[stream];
    let other = &streams[window.stream];
    assert(other@ == views[window.stream as int]);
    let own_length: usize = own.statements.len();
    let other_length: usize = other.statements.len();
    let mut index: usize = 0;
    while index < length
        invariant
            index <= length,
            own@ == streams@[stream as int]@,
            other@ == views[window.stream as int],
            own_length == own@.statements.len(),
            other_length == other@.statements.len(),
            start + length <= own_length,
            offset + length <= window.length,
            window.start + window.length <= other_length,
            found == key_at(own@, start as int, length as nat).statements,
            sought == window_key(views, window).statements.subrange(offset as int, offset + length),
            forall|earlier: int| 0 <= earlier < index ==> found[earlier] == sought[earlier],
            views == stream_views(streams@),
        decreases length - index,
    {
        if !same_texts(
            &own.statements[start + index].tokens,
            &other.statements[window.start + offset + index].tokens,
        ) {
            assert(found[index as int] != sought[index as int]);
            return false;
        }
        assert(found[index as int] == sought[index as int]);
        index += 1;
    }
    assert(found =~= sought);
    true
}

fn is_contained(
    streams: &Vec<StatementStream>,
    larger: SequenceWindow,
    smaller: SequenceWindow,
) -> (answer: bool)
    requires
        window_valid(stream_views(streams@), larger),
        window_valid(stream_views(streams@), smaller),
    ensures
        answer == contained(
            window_key(stream_views(streams@), larger),
            window_key(stream_views(streams@), smaller),
        ),
{
    let ghost views = stream_views(streams@);
    let ghost larger_key = window_key(views, larger);
    let ghost smaller_key = window_key(views, smaller);
    assert(views[larger.stream as int] == streams@[larger.stream as int]@);
    assert(views[smaller.stream as int] == streams@[smaller.stream as int]@);
    if streams[larger.stream].language != streams[smaller.stream].language
        || streams[larger.stream].category != streams[smaller.stream].category || larger.length
        <= smaller.length {
        return false;
    }
    assert(smaller_key.statements.subrange(0, smaller.length as int) =~= smaller_key.statements);
    let mut start: usize = 0;
    while start <= larger.length - smaller.length
        invariant
            larger.length > smaller.length,
            start <= larger.length - smaller.length,
            views == stream_views(streams@),
            window_valid(views, larger),
            window_valid(views, smaller),
            views[larger.stream as int] == streams@[larger.stream as int]@,
            larger_key == window_key(views, larger),
            smaller_key == window_key(views, smaller),
            larger_key.language == smaller_key.language,
            larger_key.category == smaller_key.category,
            smaller_key.statements.subrange(0, smaller.length as int) == smaller_key.statements,
            forall|earlier: int|
                0 <= earlier < start ==> #[trigger] larger_key.statements.subrange(
                    earlier,
                    earlier + smaller.length,
                ) != smaller_key.statements,
        decreases larger.length - smaller.length + 1 - start,
    {
        let limit: usize = streams[larger.stream].statements.len();
        assert(key_at(
            streams@[larger.stream as int]@,
            larger.start + start,
            smaller.length as nat,
        ).statements =~= larger_key.statements.subrange(start as int, start + smaller.length));
        if tokens_match(
            streams,
            larger.stream,
            larger.start + start,
            smaller,
            0,
            smaller.length,
        ) {
            return true;
        }
        if start == larger.length - smaller.length {
            return false;
        }
        start += 1;
    }
    false
}

fn accept_windows(streams: &Vec<StatementStream>, candidates: &Vec<SequenceWindow>) -> (accepted: Vec<
    SequenceWindow,
>)
    requires
        windows_valid(stream_views(streams@), candidates@),
    ensures
        windows_valid(stream_views(streams@), accepted@),
        window_keys(stream_views(streams@), accepted@) == accepted_upto(
            window_keys(stream_views(streams@), candidates@),
            candidates@.len(),
        ),
{
    let ghost views = stream_views(streams@);
    let ghost keys = window_keys(views, candidates@);
    let mut accepted: Vec<SequenceWindow> = Vec::new();
    assert(window_keys(views, accepted@) =~= accepted_upto(keys, 0));
    let mut index: usize = 0;
    while index < candidates.len()
        invariant
            index <= candidates@.len(),
            views == stream_views(streams@),
            keys == window_keys(views, candidates@),
            windows_valid(views, candidates@),
            windows_valid(views, accepted@),
            window_keys(views, accepted@) == accepted_upto(keys, index as nat),
        decreases candidates@.len() - index,
    {
        let candidate = candidates[index];
        assert(window_valid(views, candidates@[index as int]));
        let ghost held = window_keys(views, accepted@);
        let mut is_part: bool = false;
        let mut place: usize = 0;
        while place < accepted.len() && !is_part
            invariant
                place <= accepted@.len(),
                views == stream_views(streams@),
                held == window_keys(views, accepted@),
                windows_valid(views, accepted@),
                window_valid(views, candidate),
                is_part ==> contained_in_any(held, window_key(views, candidate)),
                !is_part ==> forall|earlier: int|
                    0 <= earlier < place ==> !contained(
                        #[trigger] held[earlier],
                        window_key(views, candidate),
                    ),
            decreases accepted@.len() - place,
        {
            assert(window_valid(views, accepted@[place as int]));
            assert(held[place as int] == window_key(views, accepted@[place as int]));
            is_part = is_contained(streams, accepted[place], candidate);
            place += 1;
        }
        if !is_part {
            accepted.push(candidate);
            assert(window_keys(views, accepted@) =~= held.push(window_key(views, candidate)));
        }
        assert(keys[index as int] == window_key(views, candidate));
        index += 1;
    }
    accepted
}

/// The places that pairs of machine integers stand for.
pub open spec fn place_values(places: Seq<(usize, usize)>) -> Seq<(int, int)> {
    places.map_values(|place: (usize, usize)| (place.0 as int, place.1 as int))
}

fn find_occurrences(streams: &Vec<StatementStream>, window: SequenceWindow) -> (places: Vec<
    (usize, usize),
>)
    requires
        window_valid(stream_views(streams@), window),
    ensures
        place_values(places@) == occurrences(
            stream_views(streams@),
            window_key(stream_views(streams@), window),
        ),
{
    let ghost views = stream_views(streams@);
    let ghost key = window_key(views, window);
    let mut places: Vec<(usize, usize)> = Vec::new();
    assert(place_values(places@) =~= occurrences_upto(views, key, 0));
    assert(key.statements.subrange(0, window.length as int) =~= key.statements);
    assert(views[window.stream as int] == streams@[window.stream as int]@);
    let mut stream: usize = 0;
    while stream < streams.len()
        invariant
            stream <= streams@.len(),
            views == stream_views(streams@),
            key == window_key(views, window),
            key.statements.subrange(0, window.length as int) == key.statements,
            views[window.stream as int] == streams@[window.stream as int]@,
            window_valid(views, window),
            place_values(places@) == occurrences_upto(views, key, stream as nat),
        decreases streams@.len() - stream,
    {
        let ghost earlier = place_values(places@);
        let limit: usize = streams[stream].statements.len();
        assert(views[stream as int] == streams@[stream as int]@);
        let mut start: usize = 0;
        assert(place_values(places@) =~= earlier + starts_upto(views, key, stream as int, 0));
        while start < limit
            invariant
                start <= limit,
                limit == views[stream as int].statements.len(),
                stream < streams@.len(),
                views == stream_views(streams@),
                views[stream as int] == streams@[stream as int]@,
                views[window.stream as int] == streams@[window.stream as int]@,
                key == window_key(views, window),
                key.statements.subrange(0, window.length as int) == key.statements,
                window_valid(views, window),
                place_values(places@) == earlier + starts_upto(
                    views,
                    key,
                    stream as int,
                    start as nat,
                ),
            decreases limit - start,
        {
            let ghost held = place_values(places@);
            if streams[stream].language == streams[window.stream].language
                && streams[stream].category == streams[window.stream].category && window.length
                <= limit - start && tokens_match(
                streams,
                stream,
                start,
                window,
                0,
                window.length,
            ) {
                places.push((stream, start));
                assert(place_values(places@) =~= held.push((stream as int, start as int)));
                assert(occurs_at(views[stream as int], start as int, key));
            }
            assert(place_values(places@) =~= earlier + starts_upto(
                views,
                key,
                stream as int,
                (start + 1) as nat,
            ));
            start += 1;
        }
        stream += 1;
    }
    places
}

fn occurrence_in_order(left: &DuplicateOccurrence, right: &DuplicateOccurrence) -> (answer: bool)
    ensures
        answer == occurrence_precedes()(*left, *right),
{
    match compare_callables(&left.callable, &right.callable) {
        Relation::Same => compare_locations(left.start, right.start) != Relation::After,
        decided => decided != Relation::After,
    }
}

fn fingerprint(streams: &Vec<StatementStream>, window: SequenceWindow) -> (text: String)
    requires
        window_valid(stream_views(streams@), window),
    ensures
        text@ == key_fingerprint(window_key(stream_views(streams@), window)),
{
    let ghost views = stream_views(streams@);
    let ghost key = window_key(views, window);
    let ghost lines = key.statements.map_values(|statement: Seq<Seq<char>>| joined(statement, " "@));
    let stream = &streams[window.stream];
    assert(stream@ == views[window.stream as int]);
    let limit: usize = stream.statements.len();
    let mut parts: Vec<String> = Vec::new();
    while parts.len() < window.length
        invariant
            parts@.len() <= window.length,
            stream@ == views[window.stream as int],
            limit == stream@.statements.len(),
            window_valid(views, window),
            key == window_key(views, window),
            lines == key.statements.map_values(
                |statement: Seq<Seq<char>>| joined(statement, " "@),
            ),
            forall|index: int| 0 <= index < parts@.len() ==> (#[trigger] parts@[index])@ == lines[index],
        decreases window.length - parts@.len(),
    {
        let index: usize = parts.len();
        let part = join(&stream.statements[window.start + index].tokens, " ");
        assert(part@ == lines[index as int]);
        parts.push(part);
    }
    assert(texts(parts@) =~= lines);
    join(&parts, " \u{241e} ")
}

fn build_group(
    nodes: &Vec<CallableNode>,
    streams: &Vec<StatementStream>,
    window: SequenceWindow,
) -> (group: DuplicateGroup)
    requires
        streams_fit(stream_views(streams@)),
        owners_valid(stream_views(streams@), nodes@.len()),
        window_valid(stream_views(streams@), window),
        is_candidate(stream_views(streams@), window_key(stream_views(streams@), window)),
    ensures
        group@ == key_group(
            nodes@,
            stream_views(streams@),
            window_key(stream_views(streams@), window),
        ),
{
    let ghost views = stream_views(streams@);
    let ghost key = window_key(views, window);
    let ghost report = |place: (int, int)|
        reported_occurrence(nodes@, views, window.length as nat, place);
    proof {
        candidates_occur_twice(views, key);
        lemma_occurrences_valid(views, key, views.len());
        lemma_key_tokens(
            views[window.stream as int],
            window.start as int,
            window.length as nat,
        );
    }
    let places = find_occurrences(streams, window);
    let ghost found = place_values(places@);
    let mut occurrences: Vec<DuplicateOccurrence> = Vec::new();
    let mut index: usize = 0;
    while index < places.len()
        invariant
            index <= places@.len(),
            views == stream_views(streams@),
            key == window_key(views, window),
            window.length >= 3,
            owners_valid(views, nodes@.len()),
            found == place_values(places@),
            places_valid(views, key, found),
            report == |place: (int, int)|
                reported_occurrence(nodes@, views, window.length as nat, place),
            occurrences@ =~= found.map_values(report).take(index as int),
        decreases places@.len() - index,
    {
        let (stream, start) = places[index];
        assert(found[index as int] == (stream as int, start as int));
        assert(views[stream as int] == streams@[stream as int]@);
        let own = &streams[stream];
        let limit: usize = own.statements.len();
        occurrences.push(
            DuplicateOccurrence {
                callable: nodes[own.owner].reference.clone(),
                start: own.statements[start].location,
                end: own.statements[start + window.length - 1].location,
            },
        );
        index += 1;
    }
    assert(occurrences@ =~= found.map_values(report));
    let (first_stream, first_start) = places[0];
    assert(found[0] == (first_stream as int, first_start as int));
    assert(views[first_stream as int] == streams@[first_stream as int]@);
    assert(views[window.stream as int] == streams@[window.stream as int]@);
    let first_limit: usize = streams[first_stream].statements.len();
    let own_limit: usize = streams[window.stream].statements.len();
    let scored_signals: usize = count_signals(
        &streams[first_stream],
        first_start,
        first_start + window.length,
    );
    let tokens: usize = count_tokens(
        &streams[window.stream],
        window.start,
        window.start + window.length,
    );
    let occurrences = stable_sort(occurrences, occurrence_in_order, Ghost(occurrence_precedes()));
    DuplicateGroup {
        language: streams[window.stream].language,
        category: streams[window.stream].category,
        statement_count: window.length,
        tokens,
        scored_signals,
        fingerprint: fingerprint(streams, window),
        occurrences,
    }
}

fn group_in_order(left: &DuplicateGroup, right: &DuplicateGroup) -> (answer: bool)
    ensures
        answer == group_precedes()(left@, right@),
{
    let tokens = compare_numbers(right.tokens, left.tokens);
    if tokens != Relation::Same {
        return tokens == Relation::Before;
    }
    let languages = compare_numbers(left.language.position(), right.language.position());
    if languages != Relation::Same {
        return languages == Relation::Before;
    }
    let categories = compare_numbers(left.category.position(), right.category.position());
    if categories != Relation::Same {
        return categories == Relation::Before;
    }
    compare_text(left.fingerprint.as_str(), right.fingerprint.as_str()) != Relation::After
}

proof fn lemma_accepted_candidates(keys: Seq<SequenceKey>, count: nat)
    requires
        count <= keys.len(),
    ensures
        forall|key: SequenceKey| #[trigger]
            accepted_upto(keys, count).contains(key) ==> keys.contains(key),
    decreases count,
{
    if count > 0 {
        lemma_accepted_candidates(keys, (count - 1) as nat);
        let earlier = accepted_upto(keys, (count - 1) as nat);
        let last = keys[count - 1];
        assert(keys.contains(last));
        assert forall|key: SequenceKey| #[trigger]
            accepted_upto(keys, count).contains(key) implies keys.contains(key) by {
            let listed = accepted_upto(keys, count);
            let index = choose|index: int| 0 <= index < listed.len() && listed[index] == key;
            if index < earlier.len() {
                assert(earlier[index] == key);
                assert(earlier.contains(key));
            }
        }
    }
}

pub(crate) fn build_duplicates(
    files: &[EvidenceFile],
    nodes: &Vec<CallableNode>,
) -> (duplicates: DuplicateEvidence)
    requires
        nodes@ == callables(files@),
        total(file_weights(files@)) <= usize::MAX,
    ensures
        group_views(duplicates.groups@) == duplicate_groups(files@),
        duplicates.omitted == 0,
{
    let streams = collect_streams(nodes, files);
    let ghost views = stream_views(streams@);
    proof {
        assert forall|index: int| 0 <= index < views.len() implies total(
            weights((#[trigger] views[index]).statements),
        ) <= usize::MAX by {
            lemma_stream_fits(files@, index);
        }
    }
    let candidates = find_candidates(&streams);
    let accepted = accept_windows(&streams, &candidates);
    let ghost keys = accepted_keys(views);
    proof {
        lemma_accepted_candidates(candidate_keys(views), candidate_keys(views).len());
    }
    let mut groups: Vec<DuplicateGroup> = Vec::new();
    let mut index: usize = 0;
    while index < accepted.len()
        invariant
            index <= accepted@.len(),
            views == stream_views(streams@),
            keys == window_keys(views, accepted@),
            streams_fit(views),
            owners_valid(views, nodes@.len()),
            windows_valid(views, accepted@),
            forall|key: SequenceKey| #[trigger] keys.contains(key) ==> is_candidate(views, key),
            group_views(groups@) =~= key_groups(nodes@, views, keys).take(index as int),
        decreases accepted@.len() - index,
    {
        let ghost held = group_views(groups@);
        assert(window_valid(views, accepted@[index as int]));
        assert(keys[index as int] == window_key(views, accepted@[index as int]));
        assert(keys.contains(keys[index as int]));
        let group = build_group(nodes, &streams, accepted[index]);
        let ghost added = group@;
        groups.push(group);
        assert(group_views(groups@) =~= held.push(added));
        index += 1;
    }
    let ghost order = |left: DuplicateGroup, right: DuplicateGroup|
        group_precedes()(left@, right@);
    proof {
        assert(group_views(groups@) =~= key_groups(nodes@, views, keys));
        sorted_mapped(groups@, order, |group: DuplicateGroup| group@, group_precedes());
    }
    let groups = stable_sort(groups, group_in_order, Ghost(order));
    DuplicateEvidence { groups, omitted: 0 }
}

proof fn lemma_accepted_maximal(keys: Seq<SequenceKey>, count: nat)
    requires
        count <= keys.len(),
        keys_ordered(keys),
    ensures
        forall|left: int, right: int|
            0 <= left < accepted_upto(keys, count).len() && 0 <= right < accepted_upto(
                keys,
                count,
            ).len() ==> !contained(
                #[trigger] accepted_upto(keys, count)[left],
                #[trigger] accepted_upto(keys, count)[right],
            ),
        forall|index: int|
            0 <= index < accepted_upto(keys, count).len() ==> exists|place: int|
                0 <= place < count && keys[place] == #[trigger] accepted_upto(keys, count)[index],
    decreases count,
{
    if count > 0 {
        lemma_accepted_maximal(keys, (count - 1) as nat);
        let earlier = accepted_upto(keys, (count - 1) as nat);
        let listed = accepted_upto(keys, count);
        let last = keys[count - 1];
        assert forall|index: int| 0 <= index < listed.len() implies exists|place: int|
            0 <= place < count && keys[place] == #[trigger] listed[index] by {
            if index < earlier.len() {
                let place = choose|place: int| 0 <= place < count - 1 && keys[place] == earlier[index];
                assert(keys[place] == listed[index]);
            } else {
                assert(keys[count - 1] == listed[index]);
            }
        }
        assert forall|left: int, right: int|
            0 <= left < listed.len() && 0 <= right < listed.len() implies !contained(
            #[trigger] listed[left],
            #[trigger] listed[right],
        ) by {
            if left < earlier.len() && right < earlier.len() {
                assert(!contained(earlier[left], earlier[right]));
            } else if left < earlier.len() {
                assert(listed[left] == earlier[left]);
            } else if right < earlier.len() {
                let place = choose|place: int| 0 <= place < count - 1 && keys[place] == earlier[right];
                assert(key_relation(keys[place], keys[count - 1]) == Relation::Before);
                reveal(key_relation);
            }
        }
    }
}

proof fn lemma_accepted_covers(keys: Seq<SequenceKey>, count: nat, index: int)
    requires
        0 <= index < count <= keys.len(),
    ensures
        accepted_upto(keys, count).contains(keys[index]) || contained_in_any(
            accepted_upto(keys, count),
            keys[index],
        ),
    decreases count,
{
    let earlier = accepted_upto(keys, (count - 1) as nat);
    let listed = accepted_upto(keys, count);
    if index < count - 1 {
        lemma_accepted_covers(keys, (count - 1) as nat, index);
        if earlier.contains(keys[index]) {
            let place = choose|place: int| 0 <= place < earlier.len() && earlier[place] == keys[index];
            assert(listed[place] == keys[index]);
        } else {
            let place = choose|place: int|
                0 <= place < earlier.len() && contained(#[trigger] earlier[place], keys[index]);
            assert(contained(listed[place], keys[index]));
        }
    } else if contained_in_any(earlier, keys[index]) {
        let place = choose|place: int|
            0 <= place < earlier.len() && contained(#[trigger] earlier[place], keys[index]);
        assert(contained(listed[place], keys[index]));
    } else {
        assert(listed[listed.len() - 1] == keys[index]);
    }
}

/// Keys of the first `count` lengths from a place on.
spec fn keys_by_length(stream: StreamView, start: int, count: nat) -> Seq<SequenceKey> {
    Seq::new(count, |length: int| key_at(stream, start, length as nat))
}

/// Keys of all lengths from the first `count` places of a stream on.
spec fn keys_by_place(stream: StreamView, count: nat) -> Seq<SequenceKey>
    decreases count,
{
    if count == 0 {
        Seq::empty()
    } else {
        keys_by_place(stream, (count - 1) as nat) + keys_by_length(
            stream,
            count - 1,
            stream.statements.len() + 1,
        )
    }
}

/// Keys of all lengths from all places of the first `count` streams on.
spec fn keys_by_stream(streams: Seq<StreamView>, count: nat) -> Seq<SequenceKey>
    decreases count,
{
    if count == 0 {
        Seq::empty()
    } else {
        keys_by_stream(streams, (count - 1) as nat) + keys_by_place(
            streams[count - 1],
            streams[count - 1].statements.len(),
        )
    }
}

proof fn lemma_concat_contains(left: Seq<SequenceKey>, right: Seq<SequenceKey>, key: SequenceKey)
    requires
        left.contains(key) || right.contains(key),
    ensures
        (left + right).contains(key),
{
    if left.contains(key) {
        let index = choose|index: int| 0 <= index < left.len() && left[index] == key;
        assert((left + right)[index] == key);
    } else {
        let index = choose|index: int| 0 <= index < right.len() && right[index] == key;
        assert((left + right)[left.len() + index] == key);
    }
}

proof fn lemma_place_listed(stream: StreamView, start: int, length: nat, count: nat)
    requires
        0 <= start < count,
        length <= stream.statements.len(),
    ensures
        keys_by_place(stream, count).contains(key_at(stream, start, length)),
    decreases count,
{
    let last = keys_by_length(stream, count - 1, stream.statements.len() + 1);
    if start < count - 1 {
        lemma_place_listed(stream, start, length, (count - 1) as nat);
    } else {
        assert(last[length as int] == key_at(stream, start, length));
    }
    lemma_concat_contains(
        keys_by_place(stream, (count - 1) as nat),
        last,
        key_at(stream, start, length),
    );
}

proof fn lemma_stream_listed(streams: Seq<StreamView>, stream: int, key: SequenceKey, count: nat)
    requires
        0 <= stream < count <= streams.len(),
        keys_by_place(streams[stream], streams[stream].statements.len()).contains(key),
    ensures
        keys_by_stream(streams, count).contains(key),
    decreases count,
{
    let last = keys_by_place(streams[count - 1], streams[count - 1].statements.len());
    if stream < count - 1 {
        lemma_stream_listed(streams, stream, key, (count - 1) as nat);
    }
    lemma_concat_contains(keys_by_stream(streams, (count - 1) as nat), last, key);
}

proof fn lemma_common_bounded(
    left: Seq<FrontendStatement>,
    left_start: int,
    right: Seq<FrontendStatement>,
    right_start: int,
)
    requires
        0 <= left_start,
    ensures
        common_length(left, left_start, right, right_start) <= left.len(),
        left_start <= left.len() ==> common_length(left, left_start, right, right_start)
            <= left.len() - left_start,
    decreases left.len() - left_start,
{
    if left_start < left.len() && right_start < right.len() && statement_tokens(left[left_start])
        == statement_tokens(right[right_start]) {
        lemma_common_bounded(left, left_start + 1, right, right_start + 1);
    }
}

/// How many keys, from the first on, stand before another.
spec fn keys_before(keys: Seq<SequenceKey>, key: SequenceKey, start: int) -> int
    decreases keys.len() - start,
{
    if start < 0 || start >= keys.len() || key_relation(keys[start], key) != Relation::Before {
        start
    } else {
        keys_before(keys, key, start + 1)
    }
}

proof fn lemma_keys_before(keys: Seq<SequenceKey>, key: SequenceKey, start: int)
    requires
        0 <= start <= keys.len(),
        start > 0 ==> key_relation(keys[start - 1], key) == Relation::Before,
    ensures
        ({
            let place = keys_before(keys, key, start);
            &&& start <= place <= keys.len()
            &&& place > 0 ==> key_relation(keys[place - 1], key) == Relation::Before
            &&& place < keys.len() ==> key_relation(keys[place], key) != Relation::Before
        }),
    decreases keys.len() - start,
{
    if start < keys.len() && key_relation(keys[start], key) == Relation::Before {
        lemma_keys_before(keys, key, start + 1);
    }
}

/// The candidates among the first `count` keys, in their order.
spec fn ordered_candidates(
    streams: Seq<StreamView>,
    listed: Seq<SequenceKey>,
    count: nat,
) -> Seq<SequenceKey>
    decreases count,
{
    if count == 0 {
        Seq::empty()
    } else {
        let earlier = ordered_candidates(streams, listed, (count - 1) as nat);
        let key = listed[count - 1];
        if is_candidate(streams, key) && !earlier.contains(key) {
            earlier.insert(keys_before(earlier, key, 0), key)
        } else {
            earlier
        }
    }
}

proof fn lemma_ordered_candidates(
    streams: Seq<StreamView>,
    listed: Seq<SequenceKey>,
    count: nat,
)
    requires
        count <= listed.len(),
    ensures
        keys_ordered(ordered_candidates(streams, listed, count)),
        forall|key: SequenceKey| #[trigger]
            ordered_candidates(streams, listed, count).contains(key) <==> (is_candidate(
                streams,
                key,
            ) && listed.take(count as int).contains(key)),
    decreases count,
{
    let keys = ordered_candidates(streams, listed, count);
    if count > 0 {
        lemma_ordered_candidates(streams, listed, (count - 1) as nat);
        let earlier = ordered_candidates(streams, listed, (count - 1) as nat);
        let key = listed[count - 1];
        let front = listed.take(count - 1);
        assert(listed.take(count as int) =~= front.push(key));
        assert forall|other: SequenceKey| #[trigger]
            listed.take(count as int).contains(other) <==> (front.contains(other) || other
                == key) by {
            if front.contains(other) {
                let index = choose|index: int| 0 <= index < front.len() && front[index] == other;
                assert(listed.take(count as int)[index] == other);
            }
            if other == key {
                assert(listed.take(count as int)[count - 1] == other);
            }
        }
        if is_candidate(streams, key) && !earlier.contains(key) {
            let place = keys_before(earlier, key, 0);
            lemma_keys_before(earlier, key, 0);
            if place < earlier.len() {
                lemma_key_pair(earlier[place], key);
                assert(earlier.contains(earlier[place]));
            }
            lemma_key_inserted(earlier, place, key);
        }
    }
}

/// There is a list of the candidates in their order.
pub proof fn candidates_can_be_listed(streams: Seq<StreamView>)
    ensures
        lists_candidates(streams, candidate_keys(streams)),
{
    let listed = keys_by_stream(streams, streams.len());
    let keys = ordered_candidates(streams, listed, listed.len());
    lemma_ordered_candidates(streams, listed, listed.len());
    assert(listed.take(listed.len() as int) =~= listed);
    assert forall|key: SequenceKey| #[trigger] keys.contains(key) <==> is_candidate(
        streams,
        key,
    ) by {
        if is_candidate(streams, key) {
            let (left, left_start, right, right_start) = choose|
                left: int,
                left_start: int,
                right: int,
                right_start: int,
            | #[trigger]
                duplicate_pair(streams, left, left_start, right, right_start) && key == common_key(
                    streams,
                    left,
                    left_start,
                    right,
                    right_start,
                );
            let first = streams[left].statements;
            let second = streams[right].statements;
            let length = common_length(first, left_start, second, right_start);
            lemma_common_bounded(first, left_start, second, right_start);
            lemma_place_listed(streams[left], left_start, length, first.len());
            lemma_stream_listed(streams, left, key, streams.len());
        }
    }
    assert(lists_candidates(streams, keys));
}

/// No reported duplicate is part of another, and every candidate is reported
/// or is part of a reported one.
pub proof fn reported_duplicates_are_maximal(streams: Seq<StreamView>)
    ensures
        forall|left: int, right: int|
            0 <= left < accepted_keys(streams).len() && 0 <= right < accepted_keys(streams).len()
                ==> !contained(
                #[trigger] accepted_keys(streams)[left],
                #[trigger] accepted_keys(streams)[right],
            ),
        forall|key: SequenceKey| #[trigger]
            is_candidate(streams, key) ==> accepted_keys(streams).contains(key)
                || contained_in_any(accepted_keys(streams), key),
{
    candidates_can_be_listed(streams);
    let keys = candidate_keys(streams);
    lemma_accepted_maximal(keys, keys.len());
    assert forall|key: SequenceKey| #[trigger]
        is_candidate(streams, key) implies accepted_keys(streams).contains(key) || contained_in_any(
        accepted_keys(streams),
        key,
    ) by {
        assert(keys.contains(key));
        let index = choose|index: int| 0 <= index < keys.len() && keys[index] == key;
        lemma_accepted_covers(keys, keys.len(), index);
    }
}

}
