//! What the evidence of a report holds of calls and duplicates.
use vstd::prelude::*;
use crate::call_graph::{
    call_edge, calls_found, calls_upto, file_nodes_upto, owner_node, targets_upto, with_calls,
    CallsFound,
};
use crate::duplicates::{
    accepted_keys, common_key, common_length, contained, duplicate_pair, is_candidate,
    reported_duplicates_are_maximal, signal_total, token_total, SequenceKey, StreamView,
};
use crate::evidence::{
    callables, leaf, leaf_start, CallEdge, CallResolution, CallResolutionReason, CallableNode,
    EvidenceFile, FrontendCall, FrontendStatement,
};
use crate::model::{FunctionKind, Language};
use crate::sums::{total, total_push};
use crate::text::texts;

verus! {

/// Whether a call of a name in a file of a language can mean a callable directly: a
/// function of that file, nested or not, whose own name it is.
pub open spec fn meant(
    node: CallableNode,
    path: Seq<char>,
    language: Language,
    name: Seq<char>,
) -> bool {
    &&& node.reference.path@ == path
    &&& node.reference.language == language
    &&& node.reference.kind == FunctionKind::Function || node.reference.kind
        == FunctionKind::NestedFunction
    &&& leaf(node.reference.name@) == name
}

/// How many callables a call can mean.
pub open spec fn meant_count(
    nodes: Seq<CallableNode>,
    path: Seq<char>,
    language: Language,
    name: Seq<char>,
) -> nat {
    total(
        nodes.map_values(
            |node: CallableNode|
                if meant(node, path, language, name) {
                    1nat
                } else {
                    0nat
                },
        ),
    )
}

proof fn lemma_targets_prefix(
    nodes: Seq<CallableNode>,
    shorter: Seq<usize>,
    longer: Seq<usize>,
    name: Seq<char>,
    count: nat,
)
    requires
        count <= shorter.len() <= longer.len(),
        forall|index: int| 0 <= index < shorter.len() ==> shorter[index] == longer[index],
    ensures
        targets_upto(nodes, shorter, name, count) == targets_upto(nodes, longer, name, count),
    decreases count,
{
    if count > 0 {
        lemma_targets_prefix(nodes, shorter, longer, name, (count - 1) as nat);
    }
}

proof fn lemma_meant(
    nodes: Seq<CallableNode>,
    file: EvidenceFile,
    name: Seq<char>,
    count: nat,
)
    requires
        count <= nodes.len() <= usize::MAX,
    ensures
        ({
            let local = file_nodes_upto(nodes, file, count);
            targets_upto(nodes, local, name, local.len()).len() == meant_count(
                nodes.take(count as int),
                file.path@,
                file.language,
                name,
            )
        }),
    decreases count,
{
    let counted = |node: CallableNode|
        if meant(node, file.path@, file.language, name) {
            1nat
        } else {
            0nat
        };
    let local = file_nodes_upto(nodes, file, count);
    if count == 0 {
        assert(nodes.take(0).map_values(counted) =~= Seq::<nat>::empty());
    } else {
        lemma_meant(nodes, file, name, (count - 1) as nat);
        let earlier = file_nodes_upto(nodes, file, (count - 1) as nat);
        let fewer = nodes.take(count - 1).map_values(counted);
        assert(nodes.take(count as int).map_values(counted) =~= fewer.push(
            counted(nodes[count - 1]),
        ));
        total_push(fewer, counted(nodes[count - 1]));
        if local.len() > earlier.len() {
            lemma_targets_prefix(nodes, earlier, local, name, earlier.len());
            assert(local[earlier.len() as int] == (count - 1) as usize);
        }
    }
}

/// A call keeps its name and place. One that is not direct stays unresolved for the
/// reason that the frontend gives; a direct one is resolved where it can mean just
/// one function, ambiguous where it can mean several, and unknown where it can mean
/// none.
pub proof fn calls_are_resolved_by_what_they_can_mean(
    nodes: Seq<CallableNode>,
    file: EvidenceFile,
    call: FrontendCall,
    caller: usize,
)
    requires
        nodes.len() <= usize::MAX,
    ensures
        ({
            let edge = call_edge(nodes, file, call, caller);
            let count = meant_count(nodes, file.path@, file.language, call.name@);
            let direct = call.reason == CallResolutionReason::DirectLocal;
            &&& edge.caller == nodes[caller as int].reference
            &&& edge.callee_name == call.name
            &&& edge.location == call.location
            &&& !direct ==> edge.resolution == CallResolution::Unresolved && edge.reason
                == call.reason && edge.callee is None
            &&& direct && count == 0 ==> edge.resolution == CallResolution::Unresolved
                && edge.reason == CallResolutionReason::Unknown && edge.callee is None
            &&& direct && count == 1 ==> edge.resolution == CallResolution::Resolved && edge.reason
                == CallResolutionReason::DirectLocal && edge.callee is Some
            &&& direct && count > 1 ==> edge.resolution == CallResolution::Ambiguous
                && edge.reason == CallResolutionReason::DuplicateDefinition && edge.callee is None
        }),
{
    lemma_meant(nodes, file, call.name@, nodes.len());
    assert(nodes.take(nodes.len() as int) =~= nodes);
}

proof fn lemma_edges_kept(
    nodes: Seq<CallableNode>,
    file: EvidenceFile,
    found: CallsFound,
    count: nat,
    edge: CallEdge,
)
    requires
        found.edges.contains(edge),
    ensures
        with_calls(nodes, file, found, count).edges.contains(edge),
    decreases count,
{
    if count > 0 {
        lemma_edges_kept(nodes, file, found, (count - 1) as nat, edge);
        let earlier = with_calls(nodes, file, found, (count - 1) as nat);
        let next = with_calls(nodes, file, found, count);
        let at = choose|at: int| 0 <= at < earlier.edges.len() && earlier.edges[at] == edge;
        assert(next.edges[at] == edge);
    }
}

proof fn lemma_edge_found(
    nodes: Seq<CallableNode>,
    file: EvidenceFile,
    found: CallsFound,
    count: nat,
    index: int,
    caller: usize,
)
    requires
        0 <= index < count <= file.frontend.calls@.len(),
        owner_node(nodes, file, file.frontend.calls@[index].caller) == Some(caller),
    ensures
        with_calls(nodes, file, found, count).edges.contains(
            call_edge(nodes, file, file.frontend.calls@[index], caller),
        ),
    decreases count,
{
    let edge = call_edge(nodes, file, file.frontend.calls@[index], caller);
    let earlier = with_calls(nodes, file, found, (count - 1) as nat);
    let next = with_calls(nodes, file, found, count);
    if index < count - 1 {
        lemma_edge_found(nodes, file, found, (count - 1) as nat, index, caller);
        let at = choose|at: int| 0 <= at < earlier.edges.len() && earlier.edges[at] == edge;
        assert(next.edges[at] == edge);
    } else {
        assert(next.edges[next.edges.len() - 1] == edge);
    }
}

proof fn lemma_file_edges(
    nodes: Seq<CallableNode>,
    files: Seq<EvidenceFile>,
    count: nat,
    file: int,
    edge: CallEdge,
)
    requires
        0 <= file < count <= files.len(),
        calls_upto(nodes, files, (file + 1) as nat).edges.contains(edge),
    ensures
        calls_upto(nodes, files, count).edges.contains(edge),
    decreases count,
{
    if file + 1 < count {
        lemma_file_edges(nodes, files, (count - 1) as nat, file, edge);
        lemma_edges_kept(
            nodes,
            files[count - 1],
            calls_upto(nodes, files, (count - 1) as nat),
            files[count - 1].frontend.calls@.len(),
            edge,
        );
    }
}

/// Every call of a file whose caller is reported is an edge of the call graph.
pub proof fn every_call_is_an_edge(
    files: Seq<EvidenceFile>,
    file: int,
    index: int,
    caller: usize,
)
    requires
        0 <= file < files.len(),
        0 <= index < files[file].frontend.calls@.len(),
        owner_node(callables(files), files[file], files[file].frontend.calls@[index].caller)
            == Some(caller),
    ensures
        calls_found(files).edges.contains(
            call_edge(
                callables(files),
                files[file],
                files[file].frontend.calls@[index],
                caller,
            ),
        ),
{
    let nodes = callables(files);
    let calls = files[file].frontend.calls@;
    lemma_edge_found(
        nodes,
        files[file],
        calls_upto(nodes, files, file as nat),
        calls.len(),
        index,
        caller,
    );
    lemma_file_edges(
        nodes,
        files,
        files.len(),
        file,
        call_edge(nodes, files[file], calls[index], caller),
    );
}

proof fn lemma_leaf_start(name: Seq<char>, place: int, end: int)
    requires
        0 <= place <= end <= name.len(),
        place == 0 || (place >= 2 && name[place - 2] == ':' && name[place - 1] == ':'),
        forall|index: int| place <= index < name.len() ==> name[index] != ':',
    ensures
        leaf_start(name, end) == place,
    decreases end,
{
    if end > place {
        if end >= 2 {
            assert(name[end - 1] != ':');
        }
        if end >= 2 {
            lemma_leaf_start(name, place, end - 1);
        }
    }
}

/// The own name of a callable is what stands behind the last `::` of its name, or
/// all of it where there is none.
pub proof fn own_names_stand_last(front: Seq<char>, own: Seq<char>)
    requires
        !own.contains(':'),
    ensures
        leaf(front + "::"@ + own) == own,
        leaf(own) == own,
{
    reveal_strlit("::");
    let name = front + "::"@ + own;
    let place = (front.len() + 2) as int;
    assert(name[place - 2] == ':' && name[place - 1] == ':');
    assert forall|index: int| place <= index < name.len() implies name[index] != ':' by {
        assert(name[index] == own[index - place]);
    }
    lemma_leaf_start(name, place, name.len() as int);
    assert(name.skip(place) =~= own);
    lemma_leaf_start(own, 0, own.len() as int);
    assert(own.skip(0) =~= own);
}

/// Whether two runs of statements have the same tokens, one statement after the
/// other.
pub open spec fn same_run(
    left: Seq<FrontendStatement>,
    left_start: int,
    right: Seq<FrontendStatement>,
    right_start: int,
    length: nat,
) -> bool {
    &&& 0 <= left_start && left_start + length <= left.len()
    &&& 0 <= right_start && right_start + length <= right.len()
    &&& forall|index: int|
        0 <= index < length ==> texts((#[trigger] left[left_start + index]).tokens@) == texts(
            right[right_start + index].tokens@,
        )
}

proof fn lemma_common(
    left: Seq<FrontendStatement>,
    left_start: int,
    right: Seq<FrontendStatement>,
    right_start: int,
    length: nat,
)
    requires
        same_run(left, left_start, right, right_start, length),
    ensures
        common_length(left, left_start, right, right_start) >= length,
    decreases length,
{
    if length > 0 {
        assert(texts(left[left_start + 0].tokens@) == texts(right[right_start + 0].tokens@));
        assert forall|index: int| 0 <= index < length - 1 implies texts(
            (#[trigger] left[left_start + 1 + index]).tokens@,
        ) == texts(right[right_start + 1 + index].tokens@) by {
            assert(texts(left[left_start + (index + 1)].tokens@) == texts(
                right[right_start + (index + 1)].tokens@,
            ));
        }
        lemma_common(left, left_start + 1, right, right_start + 1, (length - 1) as nat);
    }
}

proof fn lemma_run_totals(statements: Seq<FrontendStatement>, start: int, length: nat)
    requires
        0 <= start,
        start + length <= statements.len(),
    ensures
        token_total(statements, start, start + length) == total(
            Seq::new(length, |index: int| statements[start + index].tokens@.len()),
        ),
        signal_total(statements, start, start + length) == total(
            Seq::new(length, |index: int| statements[start + index].scored_signals as nat),
        ),
    decreases length,
{
    let tokens = |index: int| statements[start + index].tokens@.len();
    let scored = |index: int| statements[start + index].scored_signals as nat;
    if length == 0 {
        assert(Seq::new(0, tokens) =~= Seq::<nat>::empty());
        assert(Seq::new(0, scored) =~= Seq::<nat>::empty());
    } else {
        let fewer = (length - 1) as nat;
        lemma_run_totals(statements, start, fewer);
        assert(Seq::new(length, tokens) =~= Seq::new(fewer, tokens).push(tokens(length - 1)));
        assert(Seq::new(length, scored) =~= Seq::new(fewer, scored).push(scored(length - 1)));
        total_push(Seq::new(fewer, tokens), tokens(length - 1));
        total_push(Seq::new(fewer, scored), scored(length - 1));
    }
}

proof fn lemma_totals_grow(statements: Seq<FrontendStatement>, start: int, fewer: int, more: int)
    requires
        fewer <= more,
    ensures
        token_total(statements, start, fewer) <= token_total(statements, start, more),
        signal_total(statements, start, fewer) <= signal_total(statements, start, more),
    decreases more - start,
{
    if fewer < more && start < more {
        lemma_totals_grow(statements, start, fewer, more - 1);
    }
}

/// Whether statements are among those of a key, one after the other.
pub open spec fn holds_run(key: SequenceKey, run: Seq<Seq<Seq<char>>>) -> bool {
    exists|start: int|
        0 <= start && start + run.len() <= key.statements.len()
            && #[trigger] key.statements.subrange(start, start + run.len()) == run
}

/// A run of three statements at least, with forty tokens and two signals, that
/// occurs twice in callables of one language and category is reported, by itself or
/// within a longer one.
pub proof fn repeated_runs_are_reported(
    streams: Seq<StreamView>,
    left: int,
    left_start: int,
    right: int,
    right_start: int,
    length: nat,
)
    requires
        0 <= left <= right < streams.len(),
        left == right ==> left_start < right_start,
        streams[left].language == streams[right].language,
        streams[left].category == streams[right].category,
        same_run(
            streams[left].statements,
            left_start,
            streams[right].statements,
            right_start,
            length,
        ),
        length >= 3,
        total(
            Seq::new(
                length,
                |index: int| streams[left].statements[left_start + index].tokens@.len(),
            ),
        ) >= 40,
        total(
            Seq::new(
                length,
                |index: int|
                    streams[left].statements[left_start + index].scored_signals as nat,
            ),
        ) >= 2,
    ensures
        exists|place: int|
            0 <= place < accepted_keys(streams).len() && (
            #[trigger] accepted_keys(streams)[place]).language == streams[left].language
                && accepted_keys(streams)[place].category == streams[left].category && holds_run(
                accepted_keys(streams)[place],
                Seq::new(
                    length,
                    |index: int|
                        texts(streams[left].statements[left_start + index].tokens@),
                ),
            ),
{
    let first = streams[left].statements;
    let second = streams[right].statements;
    let run = Seq::new(length, |index: int| texts(first[left_start + index].tokens@));
    let longer = common_length(first, left_start, second, right_start);
    lemma_common(first, left_start, second, right_start, length);
    lemma_run_totals(first, left_start, length);
    lemma_totals_grow(first, left_start, left_start + length, left_start + longer);
    assert(duplicate_pair(streams, left, left_start, right, right_start));
    let key = common_key(streams, left, left_start, right, right_start);
    assert(is_candidate(streams, key));
    reported_duplicates_are_maximal(streams);
    let accepted = accepted_keys(streams);
    let start: int = 0;
    assert(key.statements.subrange(start, start + run.len()) =~= run);
    if accepted.contains(key) {
        let place = choose|place: int| 0 <= place < accepted.len() && accepted[place] == key;
        assert(holds_run(accepted[place], run));
    } else {
        let place = choose|place: int|
            0 <= place < accepted.len() && contained(#[trigger] accepted[place], key);
        let larger = accepted[place];
        let start = choose|start: int|
            0 <= start <= larger.statements.len() - key.statements.len()
                && #[trigger] larger.statements.subrange(start, start + key.statements.len())
                == key.statements;
        assert(larger.statements.subrange(start, start + run.len()) =~= run) by {
            assert forall|index: int| 0 <= index < run.len() implies larger.statements[start
                + index] == #[trigger] run[index] by {
                assert(larger.statements.subrange(start, start + key.statements.len())[index]
                    == key.statements[index]);
            }
        }
        assert(holds_run(larger, run));
    }
}

}
