//! Bounded regions of the call graph: what each callable reaches.
use vstd::prelude::*;
use crate::evidence::{CallRegion, CallableNode, CallableRef, MAX_REGION_DEPTH, MAX_REGION_UNITS};

verus! {

/// Where a number goes into an ascending list.
pub open spec fn number_place(numbers: Seq<usize>, number: usize) -> int
    decreases numbers.len(),
{
    if numbers.len() == 0 {
        0
    } else if numbers.last() < number {
        numbers.len() as int
    } else {
        number_place(numbers.drop_last(), number)
    }
}

/// An ascending list with one more number, unless it is there already.
pub open spec fn with_number(numbers: Seq<usize>, number: usize) -> Seq<usize> {
    if numbers.contains(number) {
        numbers
    } else {
        numbers.insert(number_place(numbers, number), number)
    }
}

/// Whether a list of numbers rises from each to the next.
pub open spec fn ascending(numbers: Seq<usize>) -> bool {
    forall|left: int, right: int|
        0 <= left < right < numbers.len() ==> (#[trigger] numbers[left]) < (
        #[trigger] numbers[right])
}

proof fn lemma_number_place(numbers: Seq<usize>, number: usize)
    ensures
        0 <= number_place(numbers, number) <= numbers.len(),
        number_place(numbers, number) > 0 ==> numbers[number_place(numbers, number) - 1] < number,
        forall|index: int|
            number_place(numbers, number) <= index < numbers.len() ==> number <= (
            #[trigger] numbers[index]),
    decreases numbers.len(),
{
    if numbers.len() > 0 && numbers.last() >= number {
        lemma_number_place(numbers.drop_last(), number);
        assert forall|index: int|
            number_place(numbers, number) <= index < numbers.len() implies number <= (
        #[trigger] numbers[index]) by {
            if index < numbers.len() - 1 {
                assert(numbers.drop_last()[index] == numbers[index]);
            }
        }
    }
}

pub proof fn lemma_with_number(numbers: Seq<usize>, number: usize)
    requires
        ascending(numbers),
    ensures
        ascending(with_number(numbers, number)),
        forall|other: usize| #[trigger]
            with_number(numbers, number).contains(other) <==> (numbers.contains(other) || other
                == number),
        with_number(numbers, number).len() == if numbers.contains(number) {
            numbers.len()
        } else {
            numbers.len() + 1
        },
{
    let result = with_number(numbers, number);
    if !numbers.contains(number) {
        lemma_number_place(numbers, number);
        let place = number_place(numbers, number);
        assert forall|left: int, right: int| 0 <= left < right < result.len() implies (
        #[trigger] result[left]) < (#[trigger] result[right]) by {
            let before = if left < place {
                left
            } else {
                left - 1
            };
            let after = if right < place {
                right
            } else {
                right - 1
            };
            if left == place {
                assert(number <= numbers[after]);
                assert(numbers.contains(numbers[after]));
            } else if right == place {
                assert(numbers[before] <= numbers[place - 1]);
            } else {
                assert(numbers[before] < numbers[after]);
            }
        }
        assert forall|other: usize| #[trigger]
            result.contains(other) <==> (numbers.contains(other) || other == number) by {
            if numbers.contains(other) {
                let index = choose|index: int|
                    0 <= index < numbers.len() && numbers[index] == other;
                assert(result[if index < place {
                    index
                } else {
                    index + 1
                }] == other);
            }
            if other == number {
                assert(result[place] == other);
            }
            if result.contains(other) {
                let index = choose|index: int| 0 <= index < result.len() && result[index] == other;
                if index < place {
                    assert(numbers[index] == other);
                } else if index > place {
                    assert(numbers[index - 1] == other);
                }
            }
        }
    }
}

pub(crate) fn contains_number(numbers: &Vec<usize>, number: usize) -> (answer: bool)
    ensures
        answer == numbers@.contains(number),
{
    let mut index: usize = 0;
    while index < numbers.len()
        invariant
            index <= numbers@.len(),
            forall|earlier: int| 0 <= earlier < index ==> numbers@[earlier] != number,
        decreases numbers@.len() - index,
    {
        if numbers[index] == number {
            return true;
        }
        index += 1;
    }
    false
}

pub(crate) fn insert_number(numbers: &mut Vec<usize>, number: usize)
    ensures
        final(numbers)@ == with_number(old(numbers)@, number),
{
    if contains_number(numbers, number) {
        return ;
    }
    let mut place: usize = numbers.len();
    proof {
        assert(numbers@.take(place as int) =~= numbers@);
    }
    while place > 0 && numbers[place - 1] >= number
        invariant
            place <= numbers@.len(),
            numbers@ == old(numbers)@,
            number_place(numbers@, number) == number_place(numbers@.take(place as int), number),
        ensures
            place == number_place(numbers@, number),
        decreases place,
    {
        proof {
            assert(numbers@.take(place as int).drop_last() =~= numbers@.take(place - 1));
        }
        place -= 1;
    }
    numbers.insert(place, number);
}

/// The lists of numbers that a list of vectors holds.
pub open spec fn number_lists(lists: Seq<Vec<usize>>) -> Seq<Seq<usize>> {
    lists.map_values(|list: Vec<usize>| list@)
}

/// Whether every target is one of `count` nodes and no list repeats one.
pub open spec fn targets_valid(targets: Seq<Seq<usize>>, count: nat) -> bool {
    &&& targets.len() == count
    &&& forall|node: int| 0 <= node < targets.len() ==> ascending(#[trigger] targets[node])
    &&& forall|node: int, index: int|
        0 <= node < targets.len() && 0 <= index < targets[node].len() ==> (
        #[trigger] targets[node][index]) < count
}

/// One step that a region still has to take: a node, its depth, and the nodes
/// from the root to it.
#[derive(Debug)]
pub struct Frame {
    pub node: usize,
    pub depth: usize,
    pub path: Vec<usize>,
}

/// The plain content of a frame.
pub struct FrameView {
    pub node: usize,
    pub depth: usize,
    pub path: Seq<usize>,
}

impl View for Frame {
    type V = FrameView;

    open spec fn view(&self) -> FrameView {
        FrameView { node: self.node, depth: self.depth, path: self.path@ }
    }
}

/// How far a region has been explored.
#[derive(Debug)]
pub struct Exploration {
    pub reachable: Vec<usize>,
    pub stack: Vec<Frame>,
    pub max_depth: usize,
    pub recursive: bool,
    pub truncated: bool,
}

/// The plain content of an exploration.
pub struct ExplorationView {
    pub reachable: Seq<usize>,
    pub stack: Seq<FrameView>,
    pub max_depth: usize,
    pub recursive: bool,
    pub truncated: bool,
}

/// The plain contents of frames.
pub open spec fn frame_views(frames: Seq<Frame>) -> Seq<FrameView> {
    frames.map_values(|frame: Frame| frame@)
}

impl View for Exploration {
    type V = ExplorationView;

    open spec fn view(&self) -> ExplorationView {
        ExplorationView {
            reachable: self.reachable@,
            stack: frame_views(self.stack@),
            max_depth: self.max_depth,
            recursive: self.recursive,
            truncated: self.truncated,
        }
    }
}

/// The exploration after one call target of the node of `frame`.
pub open spec fn target_explored(
    state: ExplorationView,
    frame: FrameView,
    target: usize,
) -> ExplorationView {
    if frame.path.contains(target) {
        ExplorationView { recursive: true, ..state }
    } else if frame.depth >= MAX_REGION_DEPTH {
        ExplorationView { truncated: true, ..state }
    } else if state.reachable.contains(target) {
        state
    } else if state.reachable.len() >= MAX_REGION_UNITS {
        ExplorationView { truncated: true, ..state }
    } else {
        ExplorationView {
            reachable: with_number(state.reachable, target),
            stack: state.stack.push(
                FrameView {
                    node: target,
                    depth: (frame.depth + 1) as usize,
                    path: frame.path.push(target),
                },
            ),
            ..state
        }
    }
}

/// The exploration after the first `count` call targets of the node of `frame`.
pub open spec fn targets_explored(
    state: ExplorationView,
    frame: FrameView,
    targets: Seq<usize>,
    count: nat,
) -> ExplorationView
    decreases count,
{
    if count == 0 {
        state
    } else {
        target_explored(
            targets_explored(state, frame, targets, (count - 1) as nat),
            frame,
            targets[count - 1],
        )
    }
}

/// The exploration after the frame on top of the stack.
pub open spec fn frame_explored(
    state: ExplorationView,
    targets: Seq<Seq<usize>>,
) -> ExplorationView {
    if state.stack.len() == 0 {
        state
    } else {
        let frame = state.stack.last();
        targets_explored(
            ExplorationView {
                stack: state.stack.drop_last(),
                max_depth: if state.max_depth < frame.depth {
                    frame.depth
                } else {
                    state.max_depth
                },
                ..state
            },
            frame,
            targets[frame.node as int],
            targets[frame.node as int].len(),
        )
    }
}

/// The exploration from `root` after a number of steps.
pub open spec fn explored_upto(
    targets: Seq<Seq<usize>>,
    root: usize,
    steps: nat,
) -> ExplorationView
    decreases steps,
{
    if steps == 0 {
        ExplorationView {
            reachable: seq![root],
            stack: seq![FrameView { node: root, depth: 0, path: seq![root] }],
            max_depth: 0,
            recursive: false,
            truncated: false,
        }
    } else {
        frame_explored(explored_upto(targets, root, (steps - 1) as nat), targets)
    }
}

/// The finished exploration from `root`: a node is visited once at most, so
/// there are no more steps than nodes.
pub open spec fn explored(targets: Seq<Seq<usize>>, root: usize) -> ExplorationView {
    explored_upto(targets, root, targets.len())
}

/// What every exploration of a graph with `count` nodes keeps.
pub open spec fn exploration_valid(state: ExplorationView, count: nat) -> bool {
    &&& ascending(state.reachable)
    &&& 1 <= state.reachable.len() <= MAX_REGION_UNITS
    &&& state.max_depth <= MAX_REGION_DEPTH
    &&& forall|index: int|
        0 <= index < state.reachable.len() ==> (#[trigger] state.reachable[index]) < count
    &&& forall|index: int|
        0 <= index < state.stack.len() ==> (#[trigger] state.stack[index]).node < count
            && state.stack[index].depth <= MAX_REGION_DEPTH
}

proof fn lemma_target_explored(
    state: ExplorationView,
    frame: FrameView,
    target: usize,
    count: nat,
)
    requires
        exploration_valid(state, count),
        target < count,
    ensures
        exploration_valid(target_explored(state, frame, target), count),
        target_explored(state, frame, target).stack.len() - state.stack.len()
            == target_explored(state, frame, target).reachable.len() - state.reachable.len(),
        target_explored(state, frame, target).max_depth == state.max_depth,
{
    let next = target_explored(state, frame, target);
    lemma_with_number(state.reachable, target);
    assert forall|index: int| 0 <= index < next.reachable.len() implies (
    #[trigger] next.reachable[index]) < count by {
        assert(next.reachable.contains(next.reachable[index]));
        if state.reachable.contains(next.reachable[index]) {
            let place = choose|place: int|
                0 <= place < state.reachable.len() && state.reachable[place]
                    == next.reachable[index];
            assert(state.reachable[place] < count);
        }
    }
}

proof fn lemma_ascending_bounded(numbers: Seq<usize>, count: nat)
    requires
        ascending(numbers),
        forall|index: int| 0 <= index < numbers.len() ==> (#[trigger] numbers[index]) < count,
    ensures
        numbers.len() <= count,
    decreases numbers.len(),
{
    if numbers.len() > 0 {
        let shorter = numbers.drop_last();
        assert forall|index: int| 0 <= index < shorter.len() implies (#[trigger] shorter[index])
            < numbers.last() by {
            assert(numbers[index] < numbers[numbers.len() - 1]);
        }
        lemma_ascending_bounded(shorter, numbers.last() as nat);
    }
}

proof fn lemma_explored_done(
    targets: Seq<Seq<usize>>,
    root: usize,
    steps: nat,
    total: nat,
)
    requires
        steps <= total,
        explored_upto(targets, root, steps).stack.len() == 0,
    ensures
        explored_upto(targets, root, total) == explored_upto(targets, root, steps),
    decreases total,
{
    if steps < total {
        lemma_explored_done(targets, root, steps, (total - 1) as nat);
    }
}

fn explore_target(state: &mut Exploration, frame: &Frame, target: usize)
    requires
        frame.depth <= MAX_REGION_DEPTH,
    ensures
        final(state)@ == target_explored(old(state)@, frame@, target),
{
    if contains_number(&frame.path, target) {
        state.recursive = true;
        return ;
    }
    if frame.depth >= MAX_REGION_DEPTH {
        state.truncated = true;
        return ;
    }
    if contains_number(&state.reachable, target) {
        return ;
    }
    if state.reachable.len() >= MAX_REGION_UNITS {
        state.truncated = true;
        return ;
    }
    insert_number(&mut state.reachable, target);
    let mut path: Vec<usize> = frame.path.clone();
    proof {
        assert(path@ =~= frame.path@);
    }
    path.push(target);
    let next = Frame { node: target, depth: frame.depth + 1, path };
    let ghost added = next@;
    state.stack.push(next);
    proof {
        assert(frame_views(state.stack@) =~= frame_views(old(state).stack@).push(added));
    }
}

fn explore(targets: &Vec<Vec<usize>>, root: usize) -> (state: Exploration)
    requires
        targets_valid(number_lists(targets@), targets@.len()),
        root < targets@.len(),
    ensures
        state@ == explored(number_lists(targets@), root),
        exploration_valid(state@, targets@.len()),
        state@.stack.len() == 0,
{
    let ghost lists = number_lists(targets@);
    let mut path: Vec<usize> = Vec::new();
    path.push(root);
    let mut reachable: Vec<usize> = Vec::new();
    reachable.push(root);
    let mut stack: Vec<Frame> = Vec::new();
    stack.push(Frame { node: root, depth: 0, path });
    let mut state = Exploration {
        reachable,
        stack,
        max_depth: 0,
        recursive: false,
        truncated: false,
    };
    let ghost mut steps: nat = 0;
    proof {
        let start = explored_upto(lists, root, 0);
        assert(state@.reachable =~= start.reachable);
        assert(state.stack@[0]@.path =~= start.stack[0].path);
        assert(state@.stack =~= start.stack);
    }
    while state.stack.len() > 0
        invariant
            lists == number_lists(targets@),
            targets_valid(lists, targets@.len()),
            root < targets@.len(),
            state@ == explored_upto(lists, root, steps),
            exploration_valid(state@, targets@.len()),
            steps + state@.stack.len() == state@.reachable.len(),
        decreases targets@.len() - steps,
    {
        let ghost before = state@;
        proof {
            lemma_ascending_bounded(before.reachable, targets@.len());
        }
        let frame = state.stack.pop().unwrap();
        proof {
            assert(frame_views(state.stack@) =~= before.stack.drop_last());
            assert(frame@ == before.stack.last());
            assert(before.stack[before.stack.len() - 1].node < targets@.len());
        }
        if state.max_depth < frame.depth {
            state.max_depth = frame.depth;
        }
        let ghost opened = state@;
        let list = &targets[frame.node];
        let mut index: usize = 0;
        while index < list.len()
            invariant
                index <= list@.len(),
                frame.node < targets@.len(),
                frame.depth <= MAX_REGION_DEPTH,
                list@ == lists[frame.node as int],
                targets_valid(lists, targets@.len()),
                state@ == targets_explored(opened, frame@, list@, index as nat),
                exploration_valid(state@, targets@.len()),
                state@.stack.len() - opened.stack.len() == state@.reachable.len()
                    - opened.reachable.len(),
            decreases list@.len() - index,
        {
            proof {
                assert(lists[frame.node as int][index as int] < targets@.len());
                lemma_target_explored(state@, frame@, list@[index as int], targets@.len());
            }
            explore_target(&mut state, &frame, list[index]);
            index += 1;
        }
        proof {
            steps = steps + 1;
            assert(state@ == frame_explored(before, lists));
        }
    }
    proof {
        lemma_ascending_bounded(state@.reachable, targets@.len());
        lemma_explored_done(lists, root, steps, targets@.len());
    }
    state
}

/// The plain content of a region.
pub struct CallRegionView {
    pub root: CallableRef,
    pub reachable: Seq<CallableRef>,
    pub unique_units: int,
    pub burden: int,
    pub max_depth: usize,
    pub recursive: bool,
    pub truncated: bool,
}

impl View for CallRegion {
    type V = CallRegionView;

    open spec fn view(&self) -> CallRegionView {
        CallRegionView {
            root: self.root,
            reachable: self.reachable@,
            unique_units: self.unique_units as int,
            burden: self.burden as int,
            max_depth: self.max_depth,
            recursive: self.recursive,
            truncated: self.truncated,
        }
    }
}

/// The plain contents of regions.
pub open spec fn region_views(regions: Seq<CallRegion>) -> Seq<CallRegionView> {
    regions.map_values(|region: CallRegion| region@)
}

/// The scores of the first `count` nodes, added up.
pub open spec fn total_score(nodes: Seq<CallableNode>, count: nat) -> nat
    decreases count,
{
    if count == 0 {
        0
    } else {
        total_score(nodes, (count - 1) as nat) + nodes[count - 1].score as nat
    }
}

/// The scores of the first `count` listed nodes, added up.
pub open spec fn listed_score(nodes: Seq<CallableNode>, listed: Seq<usize>, count: nat) -> nat
    decreases count,
{
    if count == 0 {
        0
    } else {
        listed_score(nodes, listed, (count - 1) as nat) + nodes[listed[count
            - 1] as int].score as nat
    }
}

proof fn lemma_total_score_grows(nodes: Seq<CallableNode>, fewer: nat, more: nat)
    requires
        fewer <= more,
    ensures
        total_score(nodes, fewer) <= total_score(nodes, more),
    decreases more,
{
    if fewer < more {
        lemma_total_score_grows(nodes, fewer, (more - 1) as nat);
    }
}

proof fn lemma_listed_score(nodes: Seq<CallableNode>, listed: Seq<usize>, count: nat)
    requires
        ascending(listed),
        count <= listed.len(),
        forall|index: int| 0 <= index < listed.len() ==> (#[trigger] listed[index]) < nodes.len(),
    ensures
        listed_score(nodes, listed, count) <= if count == 0 {
            0
        } else {
            total_score(nodes, (listed[count - 1] + 1) as nat)
        },
        listed_score(nodes, listed, count) <= total_score(nodes, nodes.len()),
    decreases count,
{
    if count > 0 {
        lemma_listed_score(nodes, listed, (count - 1) as nat);
        let last = listed[count - 1];
        if count > 1 {
            assert(listed[count - 2] < last);
            lemma_total_score_grows(nodes, (listed[count - 2] + 1) as nat, last as nat);
        }
        lemma_total_score_grows(nodes, (last + 1) as nat, nodes.len());
    }
}

/// The references of listed nodes.
pub open spec fn listed_references(nodes: Seq<CallableNode>, listed: Seq<usize>) -> Seq<CallableRef> {
    Seq::new(listed.len(), |index: int| nodes[listed[index] as int].reference)
}

/// The region of the node `root`.
pub open spec fn region(
    nodes: Seq<CallableNode>,
    targets: Seq<Seq<usize>>,
    root: usize,
) -> CallRegionView {
    let state = explored(targets, root);
    CallRegionView {
        root: nodes[root as int].reference,
        reachable: listed_references(nodes, state.reachable),
        unique_units: state.reachable.len() as int,
        burden: listed_score(nodes, state.reachable, state.reachable.len()) as int,
        max_depth: state.max_depth,
        recursive: state.recursive,
        truncated: state.truncated,
    }
}

/// The regions of all nodes, in the order of the nodes.
pub open spec fn regions(
    nodes: Seq<CallableNode>,
    targets: Seq<Seq<usize>>,
) -> Seq<CallRegionView> {
    Seq::new(nodes.len(), |root: int| region(nodes, targets, root as usize))
}

fn build_region(
    nodes: &Vec<CallableNode>,
    targets: &Vec<Vec<usize>>,
    root: usize,
) -> (result: CallRegion)
    requires
        targets_valid(number_lists(targets@), nodes@.len()),
        root < nodes@.len(),
        total_score(nodes@, nodes@.len()) <= usize::MAX,
    ensures
        result@ == region(nodes@, number_lists(targets@), root),
{
    let state = explore(targets, root);
    let listed = state.reachable;
    let mut reachable: Vec<CallableRef> = Vec::new();
    let mut burden: usize = 0;
    let mut index: usize = 0;
    while index < listed.len()
        invariant
            index <= listed@.len(),
            ascending(listed@),
            forall|index: int|
                0 <= index < listed@.len() ==> (#[trigger] listed@[index]) < nodes@.len(),
            total_score(nodes@, nodes@.len()) <= usize::MAX,
            burden == listed_score(nodes@, listed@, index as nat),
            reachable@ =~= listed_references(nodes@, listed@).take(index as int),
        decreases listed@.len() - index,
    {
        proof {
            lemma_listed_score(nodes@, listed@, (index + 1) as nat);
        }
        let node = &nodes[listed[index]];
        burden = burden + node.score;
        reachable.push(node.reference.clone());
        index += 1;
    }
    proof {
        let references = listed_references(nodes@, listed@);
        assert(references.take(listed@.len() as int) =~= references);
    }
    CallRegion {
        root: nodes[root].reference.clone(),
        unique_units: reachable.len(),
        reachable,
        burden,
        max_depth: state.max_depth,
        recursive: state.recursive,
        truncated: state.truncated,
    }
}

pub(crate) fn build_regions(nodes: &Vec<CallableNode>, targets: &Vec<Vec<usize>>) -> (result: Vec<CallRegion>)
    requires
        targets_valid(number_lists(targets@), nodes@.len()),
        total_score(nodes@, nodes@.len()) <= usize::MAX,
    ensures
        region_views(result@) == regions(nodes@, number_lists(targets@)),
{
    let mut result: Vec<CallRegion> = Vec::new();
    let mut root: usize = 0;
    while root < nodes.len()
        invariant
            root <= nodes@.len(),
            targets_valid(number_lists(targets@), nodes@.len()),
            total_score(nodes@, nodes@.len()) <= usize::MAX,
            region_views(result@) =~= regions(nodes@, number_lists(targets@)).take(root as int),
        decreases nodes@.len() - root,
    {
        let ghost before = region_views(result@);
        result.push(build_region(nodes, targets, root));
        root += 1;
        proof {
            assert(region_views(result@) =~= before.push(result@[root - 1]@));
        }
    }
    result
}

/// Whether a path leads from `root` along calls, one target after another.
pub open spec fn call_path(targets: Seq<Seq<usize>>, root: usize, path: Seq<usize>) -> bool {
    &&& path.len() > 0
    &&& path[0] == root
    &&& forall|index: int|
        0 <= index < path.len() - 1 ==> targets[path[index] as int].contains(
            #[trigger] path[index + 1],
        )
}

/// Whether calls lead from `root` to `node`, in any number of steps.
pub open spec fn calls_lead_to(targets: Seq<Seq<usize>>, root: usize, node: usize) -> bool {
    exists|path: Seq<usize>| #[trigger] call_path(targets, root, path) && path.last() == node
}

/// Whether a path of calls from `root` ends in a node that calls back into it.
pub open spec fn calls_recur(targets: Seq<Seq<usize>>, root: usize) -> bool {
    exists|path: Seq<usize>, index: int| #[trigger]
        call_path(targets, root, path) && 0 <= index < path.len()
            && targets[path.last() as int].contains(#[trigger] path[index])
}

/// Whether every frame holds a path of calls to its node, over reachable nodes
/// that calls lead to.
spec fn frames_sound(targets: Seq<Seq<usize>>, root: usize, state: ExplorationView) -> bool {
    &&& forall|index: int|
        0 <= index < state.stack.len() ==> frame_sound(
            targets,
            root,
            state.reachable,
            #[trigger] state.stack[index],
        )
    &&& forall|node: usize| #[trigger]
        state.reachable.contains(node) ==> calls_lead_to(targets, root, node)
    &&& state.reachable.contains(root)
    &&& state.recursive ==> calls_recur(targets, root)
}

spec fn frame_sound(
    targets: Seq<Seq<usize>>,
    root: usize,
    reachable: Seq<usize>,
    frame: FrameView,
) -> bool {
    &&& call_path(targets, root, frame.path)
    &&& frame.path.last() == frame.node
    &&& forall|index: int|
        0 <= index < frame.path.len() ==> reachable.contains(#[trigger] frame.path[index])
}

/// Whether the node waits on the stack.
spec fn waits(state: ExplorationView, node: usize) -> bool {
    exists|index: int| 0 <= index < state.stack.len() && (#[trigger] state.stack[index]).node == node
}

/// Whether the first `count` targets of a node are reachable.
spec fn targets_reachable(
    targets: Seq<Seq<usize>>,
    state: ExplorationView,
    node: usize,
    count: nat,
) -> bool {
    forall|index: int|
        0 <= index < count ==> state.reachable.contains(#[trigger] targets[node as int][index])
}

/// Whether each reachable node waits or has all its targets reachable, but for
/// `open`, of which only the first `count` are.
spec fn nearly_closed(
    targets: Seq<Seq<usize>>,
    state: ExplorationView,
    open: usize,
    count: nat,
) -> bool {
    state.truncated || forall|node: usize| #[trigger]
        state.reachable.contains(node) ==> waits(state, node) || targets_reachable(
            targets,
            state,
            node,
            if node == open {
                count
            } else {
                targets[node as int].len()
            },
        )
}

/// Whether each reachable node waits or has all its targets reachable.
spec fn closed(targets: Seq<Seq<usize>>, state: ExplorationView) -> bool {
    state.truncated || forall|node: usize| #[trigger]
        state.reachable.contains(node) ==> waits(state, node) || targets_reachable(
            targets,
            state,
            node,
            targets[node as int].len(),
        )
}

proof fn lemma_target_step(
    targets: Seq<Seq<usize>>,
    root: usize,
    state: ExplorationView,
    frame: FrameView,
    index: nat,
)
    requires
        targets_valid(targets, targets.len()),
        exploration_valid(state, targets.len()),
        frames_sound(targets, root, state),
        frame_sound(targets, root, state.reachable, frame),
        nearly_closed(targets, state, frame.node, index),
        frame.node < targets.len(),
        index < targets[frame.node as int].len(),
    ensures
        ({
            let target = targets[frame.node as int][index as int];
            let next = target_explored(state, frame, target);
            &&& exploration_valid(next, targets.len())
            &&& frames_sound(targets, root, next)
            &&& frame_sound(targets, root, next.reachable, frame)
            &&& nearly_closed(targets, next, frame.node, index + 1)
        }),
{
    let target = targets[frame.node as int][index as int];
    let next = target_explored(state, frame, target);
    lemma_target_explored(state, frame, target, targets.len());
    lemma_with_number(state.reachable, target);
    assert(forall|node: usize| #[trigger]
        state.reachable.contains(node) ==> next.reachable.contains(node));
    assert(targets[frame.node as int].contains(target));
    let longer = frame.path.push(target);
    assert(call_path(targets, root, longer)) by {
        assert forall|place: int| 0 <= place < longer.len() - 1 implies targets[longer[place] as int].contains(
            #[trigger] longer[place + 1],
        ) by {
            if place + 1 < frame.path.len() {
                assert(longer[place + 1] == frame.path[place + 1]);
            }
        }
    }
    assert(longer.last() == target);
    if frame.path.contains(target) {
        let step = choose|step: int| 0 <= step < frame.path.len() && frame.path[step] == target;
        assert(targets[frame.path.last() as int].contains(frame.path[step]));
    }
    assert forall|place: int| 0 <= place < next.stack.len() implies frame_sound(
        targets,
        root,
        next.reachable,
        #[trigger] next.stack[place],
    ) by {
        if place < state.stack.len() {
            assert(next.stack[place] == state.stack[place]);
            let other = state.stack[place];
            assert(frame_sound(targets, root, state.reachable, other));
        } else {
            assert forall|step: int| 0 <= step < longer.len() implies next.reachable.contains(
                #[trigger] longer[step],
            ) by {
                if step < frame.path.len() {
                    assert(longer[step] == frame.path[step]);
                }
            }
        }
    }
    if !next.truncated {
        assert(next.reachable.contains(target)) by {
            if frame.path.contains(target) {
                let step = choose|step: int|
                    0 <= step < frame.path.len() && frame.path[step] == target;
                assert(state.reachable.contains(frame.path[step]));
            }
        }
        assert forall|node: usize| #[trigger] next.reachable.contains(node) implies waits(next, node)
            || targets_reachable(
            targets,
            next,
            node,
            if node == frame.node {
                index + 1
            } else {
                targets[node as int].len()
            },
        ) by {
            if state.reachable.contains(node) {
                if waits(state, node) {
                    let place = choose|place: int|
                        0 <= place < state.stack.len() && (#[trigger] state.stack[place]).node
                            == node;
                    assert(next.stack[place].node == node);
                }
            } else {
                assert(next.stack[next.stack.len() - 1].node == node);
            }
        }
    }
}

proof fn lemma_frame_step(targets: Seq<Seq<usize>>, root: usize, state: ExplorationView)
    requires
        targets_valid(targets, targets.len()),
        exploration_valid(state, targets.len()),
        frames_sound(targets, root, state),
        closed(targets, state),
    ensures
        exploration_valid(frame_explored(state, targets), targets.len()),
        frames_sound(targets, root, frame_explored(state, targets)),
        closed(targets, frame_explored(state, targets)),
{
    if state.stack.len() > 0 {
        let frame = state.stack.last();
        let opened = ExplorationView {
            stack: state.stack.drop_last(),
            max_depth: if state.max_depth < frame.depth {
                frame.depth
            } else {
                state.max_depth
            },
            ..state
        };
        assert(frame_sound(targets, root, state.reachable, state.stack[state.stack.len() - 1]));
        if !state.truncated {
            assert forall|node: usize| #[trigger] opened.reachable.contains(node) implies waits(
                opened,
                node,
            ) || targets_reachable(
                targets,
                opened,
                node,
                if node == frame.node {
                    0
                } else {
                    targets[node as int].len()
                },
            ) by {
                if node != frame.node && waits(state, node) {
                    let place = choose|place: int|
                        0 <= place < state.stack.len() && (#[trigger] state.stack[place]).node
                            == node;
                    assert(opened.stack[place].node == node);
                }
            }
        }
        assert forall|place: int| 0 <= place < opened.stack.len() implies frame_sound(
            targets,
            root,
            opened.reachable,
            #[trigger] opened.stack[place],
        ) by {
            assert(opened.stack[place] == state.stack[place]);
        }
        lemma_targets_step(targets, root, opened, frame, targets[frame.node as int].len());
    }
}

proof fn lemma_targets_step(
    targets: Seq<Seq<usize>>,
    root: usize,
    opened: ExplorationView,
    frame: FrameView,
    count: nat,
)
    requires
        targets_valid(targets, targets.len()),
        exploration_valid(opened, targets.len()),
        frames_sound(targets, root, opened),
        frame_sound(targets, root, opened.reachable, frame),
        nearly_closed(targets, opened, frame.node, 0),
        frame.node < targets.len(),
        count <= targets[frame.node as int].len(),
    ensures
        ({
            let next = targets_explored(opened, frame, targets[frame.node as int], count);
            &&& exploration_valid(next, targets.len())
            &&& frames_sound(targets, root, next)
            &&& frame_sound(targets, root, next.reachable, frame)
            &&& nearly_closed(targets, next, frame.node, count)
        }),
    decreases count,
{
    if count > 0 {
        lemma_targets_step(targets, root, opened, frame, (count - 1) as nat);
        lemma_target_step(
            targets,
            root,
            targets_explored(opened, frame, targets[frame.node as int], (count - 1) as nat),
            frame,
            (count - 1) as nat,
        );
    }
}

proof fn lemma_explored_invariants(targets: Seq<Seq<usize>>, root: usize, steps: nat)
    requires
        targets_valid(targets, targets.len()),
        root < targets.len(),
    ensures
        exploration_valid(explored_upto(targets, root, steps), targets.len()),
        frames_sound(targets, root, explored_upto(targets, root, steps)),
        closed(targets, explored_upto(targets, root, steps)),
    decreases steps,
{
    if steps == 0 {
        let state = explored_upto(targets, root, 0);
        assert(call_path(targets, root, seq![root]));
        assert(seq![root].last() == root);
        assert(state.reachable.contains(root)) by {
            assert(state.reachable[0] == root);
        }
        assert(state.stack[0].node == root);
        assert forall|node: usize| #[trigger] state.reachable.contains(node) implies node
            == root by {}
    } else {
        lemma_explored_invariants(targets, root, (steps - 1) as nat);
        lemma_frame_step(targets, root, explored_upto(targets, root, (steps - 1) as nat));
    }
}

proof fn lemma_path_reachable(
    targets: Seq<Seq<usize>>,
    root: usize,
    state: ExplorationView,
    path: Seq<usize>,
    index: int,
)
    requires
        call_path(targets, root, path),
        0 <= index < path.len(),
        state.reachable.contains(root),
        state.stack.len() == 0,
        !state.truncated,
        closed(targets, state),
    ensures
        state.reachable.contains(path[index]),
    decreases index,
{
    if index > 0 {
        lemma_path_reachable(targets, root, state, path, index - 1);
        let node = path[index - 1];
        assert(!waits(state, node));
        assert(targets[node as int].contains(path[index - 1 + 1]));
        let place = choose|place: int|
            0 <= place < targets[node as int].len() && targets[node as int][place] == path[index];
        assert(state.reachable.contains(targets[node as int][place]));
    }
}

proof fn lemma_targets_counted(
    targets: Seq<Seq<usize>>,
    opened: ExplorationView,
    frame: FrameView,
    count: nat,
)
    requires
        targets_valid(targets, targets.len()),
        exploration_valid(opened, targets.len()),
        frame.node < targets.len(),
        count <= targets[frame.node as int].len(),
    ensures
        ({
            let next = targets_explored(opened, frame, targets[frame.node as int], count);
            &&& exploration_valid(next, targets.len())
            &&& next.stack.len() - opened.stack.len() == next.reachable.len()
                - opened.reachable.len()
        }),
    decreases count,
{
    if count > 0 {
        lemma_targets_counted(targets, opened, frame, (count - 1) as nat);
        lemma_target_explored(
            targets_explored(opened, frame, targets[frame.node as int], (count - 1) as nat),
            frame,
            targets[frame.node as int][count - 1],
            targets.len(),
        );
    }
}

proof fn lemma_steps_counted(targets: Seq<Seq<usize>>, root: usize, steps: nat)
    requires
        targets_valid(targets, targets.len()),
        root < targets.len(),
    ensures
        ({
            let state = explored_upto(targets, root, steps);
            state.stack.len() == 0 || steps + state.stack.len() == state.reachable.len()
        }),
    decreases steps,
{
    if steps > 0 {
        let before = explored_upto(targets, root, (steps - 1) as nat);
        lemma_steps_counted(targets, root, (steps - 1) as nat);
        lemma_explored_invariants(targets, root, (steps - 1) as nat);
        if before.stack.len() > 0 {
            let frame = before.stack.last();
            assert(before.stack[before.stack.len() - 1].node < targets.len());
            let opened = ExplorationView {
                stack: before.stack.drop_last(),
                max_depth: if before.max_depth < frame.depth {
                    frame.depth
                } else {
                    before.max_depth
                },
                ..before
            };
            lemma_targets_counted(targets, opened, frame, targets[frame.node as int].len());
        }
    }
}

/// A region lists each unit once, within its bounds, and only units that calls
/// lead to; one that is not truncated lists all of these. A region is marked
/// recursive only where a path of calls from its root leads back into itself.
pub proof fn regions_hold_what_calls_lead_to(targets: Seq<Seq<usize>>, root: usize)
    requires
        targets_valid(targets, targets.len()),
        root < targets.len(),
    ensures
        ({
            let state = explored(targets, root);
            &&& state.stack.len() == 0
            &&& ascending(state.reachable)
            &&& state.reachable.len() <= MAX_REGION_UNITS
            &&& state.max_depth <= MAX_REGION_DEPTH
            &&& state.reachable.contains(root)
            &&& forall|node: usize| #[trigger]
                state.reachable.contains(node) ==> calls_lead_to(targets, root, node)
            &&& !state.truncated ==> forall|node: usize| #[trigger]
                calls_lead_to(targets, root, node) ==> state.reachable.contains(node)
            &&& state.recursive ==> calls_recur(targets, root)
        }),
{
    let state = explored(targets, root);
    lemma_explored_invariants(targets, root, targets.len());
    lemma_steps_counted(targets, root, targets.len());
    lemma_ascending_bounded(state.reachable, targets.len());
    if !state.truncated {
        assert forall|node: usize| #[trigger]
            calls_lead_to(targets, root, node) implies state.reachable.contains(node) by {
            let path = choose|path: Seq<usize>| #[trigger]
                call_path(targets, root, path) && path.last() == node;
            lemma_path_reachable(targets, root, state, path, path.len() - 1);
        }
    }
}

}
