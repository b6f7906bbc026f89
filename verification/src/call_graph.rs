//! The local call graph: which calls have one certain target.
use vstd::prelude::*;
use crate::evidence::{
    callable_relation, callables, compare_callables, direct_target, direct_target_kind, leaf,
    leaf_name, local_callable, local_key, CallCoverage, CallEdge, CallGraphEvidence, CallResolution,
    CallResolutionReason, CallableNode, CallableRef, EvidenceFile, FrontendCall, LocalCallable,
};
use crate::model::{compare_locations, location_relation};
use crate::order::{chained, compare_text, sorted, stable_sort, text_relation, Relation};
use crate::regions::{
    build_regions, insert_number, lemma_with_number, number_lists, region_views, regions,
    targets_valid, total_score, with_number,
};

verus! {

/// The nodes among the first `count` that belong to a file.
pub open spec fn file_nodes_upto(
    nodes: Seq<CallableNode>,
    file: EvidenceFile,
    count: nat,
) -> Seq<usize>
    decreases count,
{
    if count == 0 {
        Seq::empty()
    } else {
        let earlier = file_nodes_upto(nodes, file, (count - 1) as nat);
        let reference = nodes[count - 1].reference;
        if reference.path@ == file.path@ && reference.language == file.language {
            earlier.push((count - 1) as usize)
        } else {
            earlier
        }
    }
}

/// The nodes that belong to a file.
pub open spec fn file_nodes(nodes: Seq<CallableNode>, file: EvidenceFile) -> Seq<usize> {
    file_nodes_upto(nodes, file, nodes.len())
}

pub(crate) fn collect_file_nodes(nodes: &Vec<CallableNode>, file: &EvidenceFile) -> (local: Vec<usize>)
    ensures
        local@ == file_nodes(nodes@, *file),
        forall|index: int|
            0 <= index < local@.len() ==> (#[trigger] local@[index]) < nodes@.len(),
{
    let mut local: Vec<usize> = Vec::new();
    let mut index: usize = 0;
    while index < nodes.len()
        invariant
            index <= nodes@.len(),
            local@ == file_nodes_upto(nodes@, *file, index as nat),
            forall|earlier: int|
                0 <= earlier < local@.len() ==> (#[trigger] local@[earlier]) < index,
        decreases nodes@.len() - index,
    {
        let reference = &nodes[index].reference;
        if reference.language == file.language && reference.path == file.path {
            local.push(index);
        }
        index += 1;
    }
    local
}

/// The first of the listed nodes that is the callable `key`.
pub open spec fn listed_node_upto(
    nodes: Seq<CallableNode>,
    local: Seq<usize>,
    key: CallableRef,
    count: nat,
) -> Option<usize>
    decreases count,
{
    if count == 0 {
        None
    } else {
        let earlier = listed_node_upto(nodes, local, key, (count - 1) as nat);
        if earlier is Some {
            earlier
        } else if callable_relation(nodes[local[count - 1] as int].reference, key)
            == Relation::Same {
            Some(local[count - 1])
        } else {
            None
        }
    }
}

/// The node of the callable that a frontend's record stands for.
pub open spec fn owner_node(
    nodes: Seq<CallableNode>,
    file: EvidenceFile,
    local: LocalCallable,
) -> Option<usize> {
    let listed = file_nodes(nodes, file);
    listed_node_upto(nodes, listed, local_callable(file, local), listed.len())
}

proof fn lemma_listed_node_found(
    nodes: Seq<CallableNode>,
    local: Seq<usize>,
    key: CallableRef,
    count: nat,
    total: nat,
)
    requires
        count <= total,
        listed_node_upto(nodes, local, key, count) is Some,
    ensures
        listed_node_upto(nodes, local, key, total) == listed_node_upto(nodes, local, key, count),
    decreases total,
{
    if count < total {
        lemma_listed_node_found(nodes, local, key, count, (total - 1) as nat);
    }
}

pub(crate) fn find_owner(
    nodes: &Vec<CallableNode>,
    listed: &Vec<usize>,
    file: &EvidenceFile,
    local: &LocalCallable,
) -> (owner: Option<usize>)
    requires
        listed@ == file_nodes(nodes@, *file),
        forall|index: int|
            0 <= index < listed@.len() ==> (#[trigger] listed@[index]) < nodes@.len(),
    ensures
        owner == owner_node(nodes@, *file, *local),
        owner matches Some(index) ==> index < nodes@.len(),
{
    let key = local_key(file, local);
    let mut index: usize = 0;
    while index < listed.len()
        invariant
            index <= listed@.len(),
            key == local_callable(*file, *local),
            listed@ == file_nodes(nodes@, *file),
            forall|index: int|
                0 <= index < listed@.len() ==> (#[trigger] listed@[index]) < nodes@.len(),
            listed_node_upto(nodes@, listed@, key, index as nat) is None,
        decreases listed@.len() - index,
    {
        if compare_callables(&nodes[listed[index]].reference, &key) == Relation::Same {
            proof {
                lemma_listed_node_found(
                    nodes@,
                    listed@,
                    key,
                    (index + 1) as nat,
                    listed@.len(),
                );
            }
            return Some(listed[index]);
        }
        index += 1;
    }
    None
}

/// The listed nodes that a direct call of `name` can mean.
pub open spec fn targets_upto(
    nodes: Seq<CallableNode>,
    local: Seq<usize>,
    name: Seq<char>,
    count: nat,
) -> Seq<usize>
    decreases count,
{
    if count == 0 {
        Seq::empty()
    } else {
        let earlier = targets_upto(nodes, local, name, (count - 1) as nat);
        let reference = nodes[local[count - 1] as int].reference;
        if direct_target(reference.kind) && leaf(reference.name@) == name {
            earlier.push(local[count - 1])
        } else {
            earlier
        }
    }
}

/// The nodes of a file that a direct call of `name` in it can mean.
pub open spec fn direct_targets(
    nodes: Seq<CallableNode>,
    file: EvidenceFile,
    name: Seq<char>,
) -> Seq<usize> {
    targets_upto(nodes, file_nodes(nodes, file), name, file_nodes(nodes, file).len())
}

/// What becomes of one call: its resolution, the reason, and the one target.
pub open spec fn resolved_call(
    nodes: Seq<CallableNode>,
    file: EvidenceFile,
    call: FrontendCall,
) -> (CallResolution, CallResolutionReason, Option<usize>) {
    if call.reason != CallResolutionReason::DirectLocal {
        (CallResolution::Unresolved, call.reason, None)
    } else {
        let targets = direct_targets(nodes, file, call.name@);
        if targets.len() == 0 {
            (CallResolution::Unresolved, CallResolutionReason::Unknown, None)
        } else if targets.len() == 1 {
            (CallResolution::Resolved, CallResolutionReason::DirectLocal, Some(targets[0]))
        } else {
            (CallResolution::Ambiguous, CallResolutionReason::DuplicateDefinition, None)
        }
    }
}

fn resolve_call(
    nodes: &Vec<CallableNode>,
    listed: &Vec<usize>,
    Ghost(file): Ghost<EvidenceFile>,
    call: &FrontendCall,
) -> (resolved: (CallResolution, CallResolutionReason, Option<usize>))
    requires
        listed@ == file_nodes(nodes@, file),
        forall|index: int|
            0 <= index < listed@.len() ==> (#[trigger] listed@[index]) < nodes@.len(),
    ensures
        resolved == resolved_call(nodes@, file, *call),
        resolved.2 matches Some(index) ==> index < nodes@.len(),
{
    if call.reason != CallResolutionReason::DirectLocal {
        return (CallResolution::Unresolved, call.reason, None);
    }
    let mut targets: Vec<usize> = Vec::new();
    let mut index: usize = 0;
    while index < listed.len()
        invariant
            index <= listed@.len(),
            forall|index: int|
                0 <= index < listed@.len() ==> (#[trigger] listed@[index]) < nodes@.len(),
            targets@ == targets_upto(nodes@, listed@, call.name@, index as nat),
            forall|index: int|
                0 <= index < targets@.len() ==> (#[trigger] targets@[index]) < nodes@.len(),
        decreases listed@.len() - index,
    {
        let reference = &nodes[listed[index]].reference;
        if direct_target_kind(reference.kind) && leaf_name(reference.name.as_str()) == call.name {
            targets.push(listed[index]);
        }
        index += 1;
    }
    if targets.len() == 0 {
        (CallResolution::Unresolved, CallResolutionReason::Unknown, None)
    } else if targets.len() == 1 {
        (CallResolution::Resolved, CallResolutionReason::DirectLocal, Some(targets[0]))
    } else {
        (CallResolution::Ambiguous, CallResolutionReason::DuplicateDefinition, None)
    }
}

/// What the calls of a report come to: an edge for each, and the resolved
/// targets of each node.
pub struct CallsFound {
    pub edges: Seq<CallEdge>,
    pub targets: Seq<Seq<usize>>,
}

/// The edge of one call that node `caller` makes.
pub open spec fn call_edge(
    nodes: Seq<CallableNode>,
    file: EvidenceFile,
    call: FrontendCall,
    caller: usize,
) -> CallEdge {
    let resolved = resolved_call(nodes, file, call);
    CallEdge {
        caller: nodes[caller as int].reference,
        callee: match resolved.2 {
            Some(target) => Some(nodes[target as int].reference),
            None => None,
        },
        callee_name: call.name,
        resolution: resolved.0,
        reason: resolved.1,
        location: call.location,
    }
}

/// `found` with one more call. A call whose caller is not reported is left out.
pub open spec fn with_call(
    nodes: Seq<CallableNode>,
    file: EvidenceFile,
    found: CallsFound,
    call: FrontendCall,
) -> CallsFound {
    match owner_node(nodes, file, call.caller) {
        None => found,
        Some(caller) => CallsFound {
            edges: found.edges.push(call_edge(nodes, file, call, caller)),
            targets: match resolved_call(nodes, file, call).2 {
                Some(target) => found.targets.update(
                    caller as int,
                    with_number(found.targets[caller as int], target),
                ),
                None => found.targets,
            },
        },
    }
}

/// `found` with the first `count` calls of a file.
pub open spec fn with_calls(
    nodes: Seq<CallableNode>,
    file: EvidenceFile,
    found: CallsFound,
    count: nat,
) -> CallsFound
    decreases count,
{
    if count == 0 {
        found
    } else {
        with_call(
            nodes,
            file,
            with_calls(nodes, file, found, (count - 1) as nat),
            file.frontend.calls@[count - 1],
        )
    }
}

/// The calls of the first `count` files.
pub open spec fn calls_upto(
    nodes: Seq<CallableNode>,
    files: Seq<EvidenceFile>,
    count: nat,
) -> CallsFound
    decreases count,
{
    if count == 0 {
        CallsFound { edges: Seq::empty(), targets: Seq::new(nodes.len(), |node: int| Seq::empty()) }
    } else {
        let file = files[count - 1];
        with_calls(
            nodes,
            file,
            calls_upto(nodes, files, (count - 1) as nat),
            file.frontend.calls@.len(),
        )
    }
}

/// The calls of all files.
pub open spec fn calls_found(files: Seq<EvidenceFile>) -> CallsFound {
    calls_upto(callables(files), files, files.len())
}

/// The order of edges: by caller, place and name.
pub open spec fn edge_relation(left: CallEdge, right: CallEdge) -> Relation {
    chained(
        callable_relation(left.caller, right.caller),
        chained(
            location_relation(left.location, right.location),
            text_relation(left.callee_name@, right.callee_name@),
        ),
    )
}

/// Whether an edge may stand before another.
pub open spec fn edge_precedes() -> spec_fn(CallEdge, CallEdge) -> bool {
    |left: CallEdge, right: CallEdge| edge_relation(left, right) != Relation::After
}

fn edge_in_order(left: &CallEdge, right: &CallEdge) -> (answer: bool)
    ensures
        answer == edge_precedes()(*left, *right),
{
    let caller = compare_callables(&left.caller, &right.caller);
    if caller != Relation::Same {
        return caller == Relation::Before;
    }
    let location = compare_locations(left.location, right.location);
    if location != Relation::Same {
        return location == Relation::Before;
    }
    compare_text(left.callee_name.as_str(), right.callee_name.as_str()) != Relation::After
}

fn collect_calls(
    nodes: &Vec<CallableNode>,
    files: &[EvidenceFile],
) -> (found: (Vec<CallEdge>, Vec<Vec<usize>>))
    ensures
        found.0@ == calls_upto(nodes@, files@, files@.len()).edges,
        number_lists(found.1@) == calls_upto(nodes@, files@, files@.len()).targets,
        targets_valid(number_lists(found.1@), nodes@.len()),
{
    let mut edges: Vec<CallEdge> = Vec::new();
    let mut targets: Vec<Vec<usize>> = Vec::new();
    while targets.len() < nodes.len()
        invariant
            targets@.len() <= nodes@.len(),
            forall|node: int| 0 <= node < targets@.len() ==> (#[trigger] targets@[node])@.len() == 0,
        decreases nodes@.len() - targets@.len(),
    {
        targets.push(Vec::new());
    }
    proof {
        assert forall|node: int| 0 <= node < nodes@.len() implies number_lists(targets@)[node]
            == Seq::<usize>::empty() by {
            assert(targets@[node]@ =~= Seq::<usize>::empty());
        }
        assert(number_lists(targets@) =~= calls_upto(nodes@, files@, 0).targets);
    }
    let mut file_index: usize = 0;
    while file_index < files.len()
        invariant
            file_index <= files@.len(),
            edges@ == calls_upto(nodes@, files@, file_index as nat).edges,
            number_lists(targets@) == calls_upto(nodes@, files@, file_index as nat).targets,
            targets_valid(number_lists(targets@), nodes@.len()),
        decreases files@.len() - file_index,
    {
        let file = &files[file_index];
        let listed = collect_file_nodes(nodes, file);
        let ghost before = calls_upto(nodes@, files@, file_index as nat);
        let mut index: usize = 0;
        while index < file.frontend.calls.len()
            invariant
                index <= file.frontend.calls@.len(),
                listed@ == file_nodes(nodes@, *file),
                forall|index: int|
                    0 <= index < listed@.len() ==> (#[trigger] listed@[index]) < nodes@.len(),
                edges@ == with_calls(nodes@, *file, before, index as nat).edges,
                number_lists(targets@) == with_calls(nodes@, *file, before, index as nat).targets,
                targets_valid(number_lists(targets@), nodes@.len()),
            decreases file.frontend.calls@.len() - index,
        {
            let call = &file.frontend.calls[index];
            if let Some(caller) = find_owner(nodes, &listed, file, &call.caller) {
                let (resolution, reason, target) = resolve_call(nodes, &listed, Ghost(*file), call);
                let callee = match target {
                    Some(target) => Some(nodes[target].reference.clone()),
                    None => None,
                };
                if let Some(target) = target {
                    let ghost lists = number_lists(targets@);
                    let mut list = targets[caller].clone();
                    proof {
                        assert(list@ =~= lists[caller as int]);
                        lemma_with_number(list@, target);
                    }
                    insert_number(&mut list, target);
                    proof {
                        assert forall|other: int| 0 <= other < list@.len() implies (
                        #[trigger] list@[other]) < nodes@.len() by {
                            assert(list@.contains(list@[other]));
                            if lists[caller as int].contains(list@[other]) {
                                let place = choose|place: int|
                                    0 <= place < lists[caller as int].len()
                                        && lists[caller as int][place] == list@[other];
                                assert(lists[caller as int][place] < nodes@.len());
                            }
                        }
                    }
                    let ghost new_list = list@;
                    targets.set(caller, list);
                    proof {
                        assert(number_lists(targets@) =~= lists.update(caller as int, new_list));
                    }
                }
                edges.push(
                    CallEdge {
                        caller: nodes[caller].reference.clone(),
                        callee,
                        callee_name: call.name.clone(),
                        resolution,
                        reason,
                        location: call.location,
                    },
                );
            }
            index += 1;
        }
        file_index += 1;
    }
    (edges, targets)
}

/// How many of the first `count` edges have a resolution.
pub open spec fn resolution_count(
    edges: Seq<CallEdge>,
    resolution: CallResolution,
    count: nat,
) -> nat
    decreases count,
{
    if count == 0 {
        0
    } else {
        resolution_count(edges, resolution, (count - 1) as nat) + if edges[count - 1].resolution
            == resolution {
            1nat
        } else {
            0nat
        }
    }
}

/// The counts of all edges by resolution.
pub open spec fn covers(coverage: CallCoverage, edges: Seq<CallEdge>) -> bool {
    &&& coverage.call_sites == edges.len()
    &&& coverage.resolved == resolution_count(edges, CallResolution::Resolved, edges.len())
    &&& coverage.unresolved == resolution_count(edges, CallResolution::Unresolved, edges.len())
    &&& coverage.ambiguous == resolution_count(edges, CallResolution::Ambiguous, edges.len())
}

proof fn lemma_resolutions_add_up(edges: Seq<CallEdge>, count: nat)
    ensures
        resolution_count(edges, CallResolution::Resolved, count) + resolution_count(
            edges,
            CallResolution::Unresolved,
            count,
        ) + resolution_count(edges, CallResolution::Ambiguous, count) == count,
    decreases count,
{
    if count > 0 {
        lemma_resolutions_add_up(edges, (count - 1) as nat);
    }
}

/// Every call site is resolved, unresolved or ambiguous, and only one of these.
pub proof fn coverage_adds_up(coverage: CallCoverage, edges: Seq<CallEdge>)
    requires
        covers(coverage, edges),
    ensures
        coverage.resolved + coverage.unresolved + coverage.ambiguous == coverage.call_sites,
{
    lemma_resolutions_add_up(edges, edges.len());
}

pub(crate) fn count_resolutions(edges: &Vec<CallEdge>) -> (coverage: CallCoverage)
    ensures
        covers(coverage, edges@),
{
    let mut resolved: usize = 0;
    let mut unresolved: usize = 0;
    let mut ambiguous: usize = 0;
    let mut index: usize = 0;
    while index < edges.len()
        invariant
            index <= edges@.len(),
            resolved == resolution_count(edges@, CallResolution::Resolved, index as nat),
            unresolved == resolution_count(edges@, CallResolution::Unresolved, index as nat),
            ambiguous == resolution_count(edges@, CallResolution::Ambiguous, index as nat),
            resolved <= index,
            unresolved <= index,
            ambiguous <= index,
        decreases edges@.len() - index,
    {
        match edges[index].resolution {
            CallResolution::Resolved => {
                resolved += 1;
            },
            CallResolution::Unresolved => {
                unresolved += 1;
            },
            CallResolution::Ambiguous => {
                ambiguous += 1;
            },
        }
        index += 1;
    }
    CallCoverage { call_sites: edges.len(), resolved, unresolved, ambiguous }
}

pub(crate) fn build_call_graph(files: &[EvidenceFile], nodes: &Vec<CallableNode>) -> (graph: CallGraphEvidence)
    requires
        nodes@ == callables(files@),
        total_score(nodes@, nodes@.len()) <= usize::MAX,
    ensures
        graph.edges@ == sorted(calls_found(files@).edges, edge_precedes()),
        covers(graph.coverage, graph.edges@),
        region_views(graph.regions@) == regions(nodes@, calls_found(files@).targets),
{
    let (unsorted, targets) = collect_calls(nodes, files);
    let edges = stable_sort(unsorted, edge_in_order, Ghost(edge_precedes()));
    let coverage = count_resolutions(&edges);
    let regions = build_regions(nodes, &targets);
    CallGraphEvidence { coverage, edges, regions }
}

/// Whether a direct call of a name in the file of another callable can mean a
/// callable.
pub open spec fn can_mean(candidate: CallableRef, caller: CallableRef, name: Seq<char>) -> bool {
    &&& candidate.path@ == caller.path@
    &&& candidate.language == caller.language
    &&& direct_target(candidate.kind)
    &&& leaf(candidate.name@) == name
}

/// Whether an edge has a callee just where one function of its file, and no
/// other, has the name that is called.
pub open spec fn certain_callee(nodes: Seq<CallableNode>, edge: CallEdge) -> bool {
    &&& edge.callee is Some <==> edge.resolution == CallResolution::Resolved
    &&& edge.callee matches Some(callee) ==> {
        &&& edge.reason == CallResolutionReason::DirectLocal
        &&& can_mean(callee, edge.caller, edge.callee_name@)
        &&& forall|index: int|
            0 <= index < nodes.len() && can_mean(
                (#[trigger] nodes[index]).reference,
                edge.caller,
                edge.callee_name@,
            ) ==> nodes[index].reference == callee
    }
}

proof fn lemma_file_nodes(nodes: Seq<CallableNode>, file: EvidenceFile, count: nat, node: int)
    requires
        count <= nodes.len(),
        nodes.len() <= usize::MAX,
    ensures
        0 <= node < count && nodes[node].reference.path@ == file.path@
            && nodes[node].reference.language == file.language ==> file_nodes_upto(
            nodes,
            file,
            count,
        ).contains(node as usize),
        forall|index: int|
            0 <= index < file_nodes_upto(nodes, file, count).len() ==> {
                let listed = #[trigger] file_nodes_upto(nodes, file, count)[index];
                &&& listed < count
                &&& nodes[listed as int].reference.path@ == file.path@
                &&& nodes[listed as int].reference.language == file.language
            },
    decreases count,
{
    if count > 0 {
        lemma_file_nodes(nodes, file, (count - 1) as nat, node);
        let earlier = file_nodes_upto(nodes, file, (count - 1) as nat);
        let listed = file_nodes_upto(nodes, file, count);
        if earlier.contains(node as usize) {
            let place = choose|place: int|
                0 <= place < earlier.len() && earlier[place] == node as usize;
            assert(listed[place] == node as usize);
        }
        if node == count - 1 && nodes[node].reference.path@ == file.path@
            && nodes[node].reference.language == file.language {
            assert(listed[earlier.len() as int] == node as usize);
        }
    }
}

proof fn lemma_targets(
    nodes: Seq<CallableNode>,
    local: Seq<usize>,
    name: Seq<char>,
    count: nat,
    place: int,
)
    requires
        count <= local.len(),
    ensures
        0 <= place < count && direct_target(nodes[local[place] as int].reference.kind) && leaf(
            nodes[local[place] as int].reference.name@,
        ) == name ==> targets_upto(nodes, local, name, count).contains(local[place]),
        forall|index: int|
            0 <= index < targets_upto(nodes, local, name, count).len() ==> {
                let target = #[trigger] targets_upto(nodes, local, name, count)[index];
                &&& local.contains(target)
                &&& direct_target(nodes[target as int].reference.kind)
                &&& leaf(nodes[target as int].reference.name@) == name
            },
    decreases count,
{
    if count > 0 {
        lemma_targets(nodes, local, name, (count - 1) as nat, place);
        let earlier = targets_upto(nodes, local, name, (count - 1) as nat);
        let targets = targets_upto(nodes, local, name, count);
        if 0 <= place < count && earlier.contains(local[place]) {
            let found = choose|found: int|
                0 <= found < earlier.len() && earlier[found] == local[place];
            assert(targets[found] == local[place]);
        }
        if targets.len() > earlier.len() {
            assert(targets[earlier.len() as int] == local[count - 1]);
        }
    }
}

proof fn lemma_edge_certain(
    nodes: Seq<CallableNode>,
    file: EvidenceFile,
    call: FrontendCall,
    caller: usize,
)
    requires
        nodes.len() <= usize::MAX,
        owner_node(nodes, file, call.caller) == Some(caller),
    ensures
        certain_callee(nodes, call_edge(nodes, file, call, caller)),
{
    let edge = call_edge(nodes, file, call, caller);
    let local = file_nodes(nodes, file);
    let targets = direct_targets(nodes, file, call.name@);
    lemma_file_nodes(nodes, file, nodes.len(), 0);
    lemma_owner_listed(nodes, local, local_callable(file, call.caller), local.len());
    assert(nodes[caller as int].reference.path@ == file.path@);
    if edge.callee is Some {
        let target = targets[0];
        lemma_targets(nodes, local, call.name@, local.len(), 0);
        assert(local.contains(target));
        let place = choose|place: int| 0 <= place < local.len() && local[place] == target;
        assert(nodes[local[place] as int].reference.path@ == file.path@);
        assert forall|index: int|
            0 <= index < nodes.len() && can_mean(
                (#[trigger] nodes[index]).reference,
                edge.caller,
                edge.callee_name@,
            ) implies nodes[index].reference == edge.callee->Some_0 by {
            lemma_file_nodes(nodes, file, nodes.len(), index);
            let listed = choose|listed: int|
                0 <= listed < local.len() && local[listed] == index as usize;
            lemma_targets(nodes, local, call.name@, local.len(), listed);
            let found = choose|found: int|
                0 <= found < targets.len() && targets[found] == local[listed];
            assert(targets[found] == targets[0]);
        }
    }
}

proof fn lemma_owner_listed(
    nodes: Seq<CallableNode>,
    local: Seq<usize>,
    key: CallableRef,
    count: nat,
)
    requires
        count <= local.len(),
    ensures
        listed_node_upto(nodes, local, key, count) matches Some(found) ==> exists|place: int|
            0 <= place < local.len() && #[trigger] local[place] == found,
    decreases count,
{
    if count > 0 {
        lemma_owner_listed(nodes, local, key, (count - 1) as nat);
        if listed_node_upto(nodes, local, key, (count - 1) as nat) is None {
            assert(local[count - 1] == local[count - 1]);
        }
    }
}

proof fn lemma_calls_certain(
    nodes: Seq<CallableNode>,
    file: EvidenceFile,
    found: CallsFound,
    count: nat,
)
    requires
        nodes.len() <= usize::MAX,
        count <= file.frontend.calls@.len(),
        forall|index: int|
            0 <= index < found.edges.len() ==> certain_callee(nodes, #[trigger] found.edges[index]),
    ensures
        forall|index: int|
            0 <= index < with_calls(nodes, file, found, count).edges.len() ==> certain_callee(
                nodes,
                #[trigger] with_calls(nodes, file, found, count).edges[index],
            ),
    decreases count,
{
    if count > 0 {
        lemma_calls_certain(nodes, file, found, (count - 1) as nat);
        let call = file.frontend.calls@[count - 1];
        let earlier = with_calls(nodes, file, found, (count - 1) as nat);
        let result = with_calls(nodes, file, found, count);
        assert(result == with_call(nodes, file, earlier, call));
        if let Some(caller) = owner_node(nodes, file, call.caller) {
            lemma_edge_certain(nodes, file, call, caller);
            assert(result.edges == earlier.edges.push(call_edge(nodes, file, call, caller)));
        }
        assert forall|index: int| 0 <= index < result.edges.len() implies certain_callee(
            nodes,
            #[trigger] result.edges[index],
        ) by {
            if index < earlier.edges.len() {
                assert(result.edges[index] == earlier.edges[index]);
            }
        }
    }
}

proof fn lemma_files_certain(nodes: Seq<CallableNode>, files: Seq<EvidenceFile>, count: nat)
    requires
        nodes.len() <= usize::MAX,
        count <= files.len(),
    ensures
        forall|index: int|
            0 <= index < calls_upto(nodes, files, count).edges.len() ==> certain_callee(
                nodes,
                #[trigger] calls_upto(nodes, files, count).edges[index],
            ),
    decreases count,
{
    if count > 0 {
        lemma_files_certain(nodes, files, (count - 1) as nat);
        let file = files[count - 1];
        lemma_calls_certain(
            nodes,
            file,
            calls_upto(nodes, files, (count - 1) as nat),
            file.frontend.calls@.len(),
        );
    }
}

/// A call has a callee only for a unique direct local function match: the
/// callee is the one function of the caller's file with the name that is
/// called.
pub proof fn callees_are_unique_local_functions(files: Seq<EvidenceFile>)
    requires
        callables(files).len() <= usize::MAX,
    ensures
        forall|index: int|
            0 <= index < calls_found(files).edges.len() ==> certain_callee(
                callables(files),
                #[trigger] calls_found(files).edges[index],
            ),
{
    lemma_files_certain(callables(files), files, files.len());
}

}
