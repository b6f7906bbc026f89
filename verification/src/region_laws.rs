//! What the region of a callable says of the calls from it.
use vstd::prelude::*;
use crate::evidence::CallableNode;
use crate::regions::{
    ascending, call_path, explored, explored_upto, frame_explored, lemma_with_number, listed_score,
    region, regions_hold_what_calls_lead_to, target_explored, targets_explored, targets_valid,
    ExplorationView, FrameView,
};
use crate::sums::{total, total_push};

verus! {

/// Whether a frame stands at the end of a path of calls, as many calls deep.
spec fn on_path(targets: Seq<Seq<usize>>, root: usize, frame: FrameView) -> bool {
    &&& frame.node < targets.len()
    &&& call_path(targets, root, frame.path)
    &&& frame.path.len() == frame.depth + 1
    &&& frame.path.last() == frame.node
}

/// Whether a path of so many calls leads away from a callable.
pub open spec fn path_of_calls(targets: Seq<Seq<usize>>, root: usize, calls: int) -> bool {
    exists|path: Seq<usize>| #[trigger]
        call_path(targets, root, path) && path.len() == calls + 1
}

spec fn consistent(targets: Seq<Seq<usize>>, root: usize, state: ExplorationView) -> bool {
    &&& ascending(state.reachable)
    &&& state.truncated ==> state.max_depth >= 32 || state.reachable.len() >= 128
    &&& forall|index: int|
        0 <= index < state.stack.len() ==> on_path(targets, root, #[trigger] state.stack[index])
    &&& path_of_calls(targets, root, state.max_depth as int)
    &&& state.reachable.len() <= 1 ==> state.max_depth == 0 && forall|index: int|
        0 <= index < state.stack.len() ==> (#[trigger] state.stack[index]).depth == 0
    &&& state.reachable.len() > 1 ==> state.max_depth > 0 || exists|index: int|
        0 <= index < state.stack.len() && (#[trigger] state.stack[index]).depth > 0
}

#[verifier::spinoff_prover]
proof fn lemma_target(
    targets: Seq<Seq<usize>>,
    root: usize,
    state: ExplorationView,
    frame: FrameView,
    target: usize,
)
    requires
        consistent(targets, root, state),
        on_path(targets, root, frame),
        frame.depth <= state.max_depth,
        state.reachable.len() > 0,
        targets[frame.node as int].contains(target),
        target < targets.len(),
    ensures
        consistent(targets, root, target_explored(state, frame, target)),
        target_explored(state, frame, target).max_depth == state.max_depth,
        target_explored(state, frame, target).reachable.len() >= state.reachable.len(),
        frame.path.contains(target) ==> target_explored(state, frame, target).recursive,
        state.recursive ==> target_explored(state, frame, target).recursive,
{
    let next = target_explored(state, frame, target);
    lemma_with_number(state.reachable, target);
    if next.stack.len() > state.stack.len() {
        let pushed = next.stack.last();
        assert(pushed.depth == frame.depth + 1);
        assert forall|index: int|
            0 <= index < pushed.path.len() - 1 implies targets[pushed.path[index] as int].contains(
            #[trigger] pushed.path[index + 1],
        ) by {
            if index < frame.path.len() - 1 {
                assert(frame.path[index + 1] == pushed.path[index + 1]);
            }
        }
        assert(on_path(targets, root, pushed));
        assert forall|index: int| 0 <= index < next.stack.len() implies on_path(
            targets,
            root,
            #[trigger] next.stack[index],
        ) by {
            if index < state.stack.len() {
                assert(on_path(targets, root, state.stack[index]));
            }
        }
        assert(next.stack[next.stack.len() - 1].depth > 0);
    } else {
        assert(next.stack == state.stack);
        assert(next.reachable == state.reachable);
    }
}

proof fn lemma_targets(
    targets: Seq<Seq<usize>>,
    root: usize,
    state: ExplorationView,
    frame: FrameView,
    count: nat,
)
    requires
        targets_valid(targets, targets.len()),
        consistent(targets, root, state),
        on_path(targets, root, frame),
        frame.depth <= state.max_depth,
        state.reachable.len() > 0,
        count <= targets[frame.node as int].len(),
    ensures
        ({
            let next = targets_explored(state, frame, targets[frame.node as int], count);
            &&& consistent(targets, root, next)
            &&& next.max_depth == state.max_depth
            &&& next.reachable.len() >= state.reachable.len()
            &&& state.recursive ==> next.recursive
            &&& forall|index: int|
                0 <= index < count && frame.path.contains(
                    #[trigger] targets[frame.node as int][index],
                ) ==> next.recursive
        }),
    decreases count,
{
    if count > 0 {
        lemma_targets(targets, root, state, frame, (count - 1) as nat);
        let list = targets[frame.node as int];
        let earlier = targets_explored(state, frame, list, (count - 1) as nat);
        assert(list.contains(list[count - 1]));
        lemma_target(targets, root, earlier, frame, list[count - 1]);
    }
}

#[verifier::spinoff_prover]
proof fn lemma_frame(targets: Seq<Seq<usize>>, root: usize, state: ExplorationView)
    requires
        targets_valid(targets, targets.len()),
        consistent(targets, root, state),
        state.reachable.len() > 0,
    ensures
        consistent(targets, root, frame_explored(state, targets)),
        frame_explored(state, targets).reachable.len() > 0,
        state.recursive ==> frame_explored(state, targets).recursive,
        state.stack.len() > 0 ==> forall|index: int|
            0 <= index < targets[state.stack.last().node as int].len()
                && state.stack.last().path.contains(
                #[trigger] targets[state.stack.last().node as int][index],
            ) ==> frame_explored(state, targets).recursive,
{
    if state.stack.len() > 0 {
        let frame = state.stack.last();
        let popped = ExplorationView {
            stack: state.stack.drop_last(),
            max_depth: if state.max_depth < frame.depth {
                frame.depth
            } else {
                state.max_depth
            },
            ..state
        };
        assert(on_path(targets, root, state.stack[state.stack.len() - 1]));
        assert(path_of_calls(targets, root, frame.depth as int)) by {
            assert(call_path(targets, root, frame.path));
        }
        assert forall|index: int| 0 <= index < popped.stack.len() implies on_path(
            targets,
            root,
            #[trigger] popped.stack[index],
        ) by {
            assert(on_path(targets, root, state.stack[index]));
        }
        if state.reachable.len() <= 1 {
            assert(state.stack[state.stack.len() - 1].depth == 0);
            assert forall|index: int| 0 <= index < popped.stack.len() implies (
            #[trigger] popped.stack[index]).depth == 0 by {
                assert(state.stack[index].depth == 0);
            }
        } else if popped.max_depth == 0 {
            let index = choose|index: int|
                0 <= index < state.stack.len() && (#[trigger] state.stack[index]).depth > 0;
            assert(popped.stack[index].depth > 0);
        }
        assert(consistent(targets, root, popped));
        lemma_targets(targets, root, popped, frame, targets[frame.node as int].len());
    }
}

proof fn lemma_steps(targets: Seq<Seq<usize>>, root: usize, steps: nat)
    requires
        targets_valid(targets, targets.len()),
        root < targets.len(),
    ensures
        consistent(targets, root, explored_upto(targets, root, steps)),
        explored_upto(targets, root, steps).reachable.len() > 0,
        steps > 0 && targets[root as int].contains(root) ==> explored_upto(
            targets,
            root,
            steps,
        ).recursive,
    decreases steps,
{
    if steps == 0 {
        let start = explored_upto(targets, root, 0);
        assert(call_path(targets, root, seq![root]));
        assert(on_path(targets, root, start.stack[0]));
    } else {
        lemma_steps(targets, root, (steps - 1) as nat);
        let earlier = explored_upto(targets, root, (steps - 1) as nat);
        lemma_frame(targets, root, earlier);
        if steps == 1 && targets[root as int].contains(root) {
            let list = targets[root as int];
            let index = choose|index: int| 0 <= index < list.len() && list[index] == root;
            assert(earlier.stack.last().path[0] == root);
            assert(earlier.stack.last().path.contains(list[index]));
        }
    }
}

/// A region is truncated only where it holds as many units as there may be, or goes as
/// deep as it may. Some path from its root is as deep as it says, and it says that
/// there is any depth just where it holds more than its root. A callable that calls
/// itself is recursive.
pub proof fn regions_tell_depth_and_bounds(targets: Seq<Seq<usize>>, root: usize)
    requires
        targets_valid(targets, targets.len()),
        root < targets.len(),
    ensures
        ({
            let state = explored(targets, root);
            &&& state.reachable.len() <= 128
            &&& state.max_depth <= 32
            &&& state.truncated ==> state.max_depth == 32 || state.reachable.len() == 128
            &&& path_of_calls(targets, root, state.max_depth as int)
            &&& state.max_depth > 0 <==> state.reachable.len() > 1
            &&& targets[root as int].contains(root) ==> state.recursive
        }),
{
    lemma_steps(targets, root, targets.len());
    regions_hold_what_calls_lead_to(targets, root);
}

proof fn lemma_listed(nodes: Seq<CallableNode>, listed: Seq<usize>, count: nat)
    requires
        count <= listed.len(),
    ensures
        listed_score(nodes, listed, count) == total(
            listed.take(count as int).map_values(|node: usize| nodes[node as int].score as nat),
        ),
    decreases count,
{
    let score = |node: usize| nodes[node as int].score as nat;
    if count == 0 {
        assert(listed.take(0).map_values(score) =~= Seq::<nat>::empty());
    } else {
        lemma_listed(nodes, listed, (count - 1) as nat);
        let fewer = listed.take(count - 1).map_values(score);
        assert(listed.take(count as int).map_values(score) =~= fewer.push(
            score(listed[count - 1]),
        ));
        total_push(fewer, score(listed[count - 1]));
    }
}

/// The burden of a region is what the units in it score.
pub proof fn regions_add_their_scores_up(
    nodes: Seq<CallableNode>,
    targets: Seq<Seq<usize>>,
    root: usize,
)
    ensures
        ({
            let held = explored(targets, root).reachable;
            let shown = region(nodes, targets, root);
            &&& shown.root == nodes[root as int].reference
            &&& shown.unique_units == held.len()
            &&& shown.reachable.len() == held.len()
            &&& shown.burden == total(
                held.map_values(|node: usize| nodes[node as int].score as nat),
            )
            &&& forall|index: int|
                0 <= index < held.len() ==> #[trigger] shown.reachable[index]
                    == nodes[held[index] as int].reference
        }),
{
    let held = explored(targets, root).reachable;
    lemma_listed(nodes, held, held.len());
    assert(held.take(held.len() as int) =~= held);
}

}
