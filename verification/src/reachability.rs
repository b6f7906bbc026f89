//! Which Rust files are reached from tests only.
//!
//! Each file is parsed by itself, so a small graph of modules carries the
//! `cfg(test)` context across files while production reachability is kept.
use vstd::prelude::*;

verus! {

/// From where a file is reached.
#[derive(Clone, Copy, Debug, Default, PartialEq, Eq, Structural)]
pub struct Reachability {
    pub production: bool,
    pub test: bool,
}

/// A module declaration that leads from one file to another.
#[derive(Clone, Copy, Debug, PartialEq, Eq, Structural)]
pub struct ModuleEdge {
    pub child: usize,
    pub test_only: bool,
}

/// How a file is reached once a parent that declares it is known.
pub open spec fn merged(
    child: Reachability,
    parent: Reachability,
    test_only: bool,
) -> Reachability {
    if test_only {
        Reachability {
            production: child.production,
            test: child.test || parent.production || parent.test,
        }
    } else {
        Reachability {
            production: child.production || parent.production,
            test: child.test || parent.test,
        }
    }
}

impl Reachability {
    /// Takes over what a parent passes on, and says whether that was news.
    pub fn merge_from(&mut self, parent: Reachability, test_only: bool) -> (changed: bool)
        ensures
            *final(self) == merged(*old(self), parent, test_only),
            changed == (*final(self) != *old(self)),
    {
        let previous = *self;
        if test_only {
            self.test = self.test || parent.production || parent.test;
        } else {
            self.production = self.production || parent.production;
            self.test = self.test || parent.test;
        }
        *self != previous
    }
}

/// Whether a path follows declarations from file to file; `steps[i]` is the
/// declaration that leads from its `i`-th file to the next.
pub open spec fn declared_path(
    edges: Seq<Seq<ModuleEdge>>,
    files: Seq<usize>,
    steps: Seq<int>,
) -> bool {
    &&& files.len() == steps.len() + 1
    &&& forall|index: int| 0 <= index < files.len() ==> (#[trigger] files[index]) < edges.len()
    &&& forall|index: int|
        0 <= index < steps.len() ==> {
            &&& 0 <= #[trigger] steps[index] < edges[files[index] as int].len()
            &&& edges[files[index] as int][steps[index]].child == files[index + 1]
        }
}

/// Whether a path passes a declaration that is for tests only.
pub open spec fn passes_test(
    edges: Seq<Seq<ModuleEdge>>,
    files: Seq<usize>,
    steps: Seq<int>,
) -> bool {
    exists|index: int|
        0 <= index < steps.len() && edges[files[index] as int][#[trigger] steps[index]].test_only
}

/// Whether production code reaches a file: from a production root, by
/// declarations none of which is for tests only.
pub open spec fn reached_by_production(
    edges: Seq<Seq<ModuleEdge>>,
    roots: Seq<Reachability>,
    file: usize,
) -> bool {
    exists|files: Seq<usize>, steps: Seq<int>| #[trigger]
        declared_path(edges, files, steps) && files.last() == file
            && roots[files[0] as int].production && !passes_test(edges, files, steps)
}

/// Whether tests reach a file: from a test root, or from any root by a
/// declaration for tests only.
pub open spec fn reached_by_tests(
    edges: Seq<Seq<ModuleEdge>>,
    roots: Seq<Reachability>,
    file: usize,
) -> bool {
    exists|files: Seq<usize>, steps: Seq<int>| #[trigger]
        declared_path(edges, files, steps) && files.last() == file && (roots[files[0] as int].test || (
        roots[files[0] as int].production && passes_test(edges, files, steps)))
}

/// The lists of edges that a list of vectors holds.
pub open spec fn edge_lists(lists: Seq<Vec<ModuleEdge>>) -> Seq<Seq<ModuleEdge>> {
    lists.map_values(|list: Vec<ModuleEdge>| list@)
}

/// Whether every declaration leads to one of the files.
pub open spec fn edges_valid(edges: Seq<Seq<ModuleEdge>>) -> bool {
    forall|file: int, index: int|
        0 <= file < edges.len() && 0 <= index < edges[file].len() ==> (
        #[trigger] edges[file][index]).child < edges.len()
}

/// Whether all that is said of files is true.
spec fn sound(
    edges: Seq<Seq<ModuleEdge>>,
    roots: Seq<Reachability>,
    states: Seq<Reachability>,
) -> bool {
    forall|file: int|
        0 <= file < states.len() ==> {
            &&& (#[trigger] states[file]).production ==> reached_by_production(
                edges,
                roots,
                file as usize,
            )
            &&& states[file].test ==> reached_by_tests(edges, roots, file as usize)
        }
}

/// Whether a file has passed on what it knows to all files that it declares,
/// up to its first `count` declarations.
spec fn passed_on(
    edges: Seq<Seq<ModuleEdge>>,
    states: Seq<Reachability>,
    file: int,
    count: int,
) -> bool {
    forall|index: int|
        0 <= index < count ==> {
            let edge = #[trigger] edges[file][index];
            merged(states[edge.child as int], states[file], edge.test_only)
                == states[edge.child as int]
        }
}

/// Whether each file waits or has passed on what it knows.
spec fn settled(
    edges: Seq<Seq<ModuleEdge>>,
    states: Seq<Reachability>,
    pending: Seq<usize>,
) -> bool {
    forall|file: int|
        0 <= file < states.len() ==> pending.contains(file as usize) || #[trigger] passed_on(
            edges,
            states,
            file,
            edges[file].len() as int,
        )
}

proof fn lemma_path_extended(
    edges: Seq<Seq<ModuleEdge>>,
    files: Seq<usize>,
    steps: Seq<int>,
    step: int,
)
    requires
        declared_path(edges, files, steps),
        edges_valid(edges),
        0 <= step < edges[files.last() as int].len(),
    ensures
        ({
            let edge = edges[files.last() as int][step];
            let longer = files.push(edge.child);
            let taken = steps.push(step);
            &&& declared_path(edges, longer, taken)
            &&& longer.last() == edge.child
            &&& passes_test(edges, longer, taken) <==> (passes_test(edges, files, steps)
                || edge.test_only)
        }),
{
    let edge = edges[files.last() as int][step];
    let longer = files.push(edge.child);
    let taken = steps.push(step);
    assert(files[files.len() - 1] == files.last());
    assert(edges[files.last() as int][step].child < edges.len());
    assert forall|index: int| 0 <= index < taken.len() implies {
        &&& 0 <= #[trigger] taken[index] < edges[longer[index] as int].len()
        &&& edges[longer[index] as int][taken[index]].child == longer[index + 1]
    } by {
        if index < steps.len() {
            assert(taken[index] == steps[index]);
            assert(longer[index + 1] == files[index + 1]);
        }
    }
    if passes_test(edges, files, steps) {
        let index = choose|index: int|
            0 <= index < steps.len() && edges[files[index] as int][#[trigger] steps[index]].test_only;
        assert(edges[longer[index] as int][taken[index]].test_only);
    }
    if edge.test_only {
        assert(edges[longer[steps.len() as int] as int][taken[steps.len() as int]].test_only);
    }
    if passes_test(edges, longer, taken) {
        let index = choose|index: int|
            0 <= index < taken.len()
                && edges[longer[index] as int][#[trigger] taken[index]].test_only;
        if index < steps.len() {
            assert(edges[files[index] as int][steps[index]].test_only);
        }
    }
}

proof fn lemma_merge_sound(
    edges: Seq<Seq<ModuleEdge>>,
    roots: Seq<Reachability>,
    states: Seq<Reachability>,
    file: usize,
    step: int,
)
    requires
        edges_valid(edges),
        roots.len() == edges.len(),
        states.len() == edges.len(),
        sound(edges, roots, states),
        file < edges.len(),
        0 <= step < edges[file as int].len(),
    ensures
        ({
            let edge = edges[file as int][step];
            let next = merged(states[edge.child as int], states[file as int], edge.test_only);
            sound(edges, roots, states.update(edge.child as int, next))
        }),
{
    let edge = edges[file as int][step];
    let child = edge.child;
    let parent = states[file as int];
    let next = merged(states[child as int], parent, edge.test_only);
    assert(edges[file as int][step].child < edges.len());
    if parent.production {
        let (files, steps) = choose|files: Seq<usize>, steps: Seq<int>| #[trigger]
            declared_path(edges, files, steps) && files.last() == file
                && roots[files[0] as int].production && !passes_test(edges, files, steps);
        lemma_path_extended(edges, files, steps, step);
        let longer = files.push(child);
        let taken = steps.push(step);
        assert(longer[0] == files[0]);
        assert(declared_path(edges, longer, taken));
    }
    if parent.test {
        let (files, steps) = choose|files: Seq<usize>, steps: Seq<int>| #[trigger]
            declared_path(edges, files, steps) && files.last() == file && (
            roots[files[0] as int].test || (roots[files[0] as int].production && passes_test(
                edges,
                files,
                steps,
            )));
        lemma_path_extended(edges, files, steps, step);
        let longer = files.push(child);
        let taken = steps.push(step);
        assert(longer[0] == files[0]);
        assert(declared_path(edges, longer, taken));
    }
    let updated = states.update(child as int, next);
    assert forall|other: int| 0 <= other < updated.len() implies {
        &&& (#[trigger] updated[other]).production ==> reached_by_production(
            edges,
            roots,
            other as usize,
        )
        &&& updated[other].test ==> reached_by_tests(edges, roots, other as usize)
    } by {
        assert(states[other].production ==> reached_by_production(edges, roots, other as usize));
    }
}

proof fn lemma_complete(
    edges: Seq<Seq<ModuleEdge>>,
    roots: Seq<Reachability>,
    states: Seq<Reachability>,
    files: Seq<usize>,
    steps: Seq<int>,
    index: int,
)
    requires
        edges_valid(edges),
        states.len() == edges.len(),
        settled(edges, states, Seq::empty()),
        declared_path(edges, files, steps),
        0 <= index < files.len(),
        roots.len() == edges.len(),
        roots_kept(roots, states),
    ensures
        ({
            let start = roots[files[0] as int];
            let tested = passes_test(edges, files.take(index + 1), steps.take(index));
            &&& start.production && !tested ==> states[files[index] as int].production
            &&& start.test || (start.production && tested) ==> states[files[index] as int].test
        }),
    decreases index,
{
    assert(files[index] < edges.len());
    assert(files[0] < edges.len());
    if index > 0 {
        lemma_complete(edges, roots, states, files, steps, index - 1);
        let parent = files[index - 1] as int;
        assert(files[index - 1] < edges.len());
        assert(!Seq::<usize>::empty().contains(parent as usize));
        assert(passed_on(edges, states, parent, edges[parent].len() as int));
        let step = steps[index - 1];
        let edge = edges[parent][step];
        assert(edge.child == files[index - 1 + 1]);
        let shorter = steps.take(index - 1);
        let longer = steps.take(index);
        if passes_test(edges, files.take(index + 1), longer) {
            let at = choose|at: int|
                0 <= at < longer.len()
                    && edges[files.take(index + 1)[at] as int][#[trigger] longer[at]].test_only;
            if at < index - 1 {
                assert(edges[files.take(index)[at] as int][shorter[at]].test_only);
            }
        } else {
            if passes_test(edges, files.take(index), shorter) {
                let at = choose|at: int|
                    0 <= at < shorter.len()
                        && edges[files.take(index)[at] as int][#[trigger] shorter[at]].test_only;
                assert(edges[files.take(index + 1)[at] as int][longer[at]].test_only);
            }
            if edge.test_only {
                assert(edges[files.take(index + 1)[index - 1] as int][longer[index - 1]].test_only);
            }
        }
    } else {
        assert(steps.take(0) =~= Seq::<int>::empty());
    }
}

/// How much can still become known.
spec fn unknown(states: Seq<Reachability>, count: nat) -> nat
    decreases count,
{
    if count == 0 {
        0
    } else {
        unknown(states, (count - 1) as nat) + (if states[count - 1].production {
            0nat
        } else {
            1nat
        }) + (if states[count - 1].test {
            0nat
        } else {
            1nat
        })
    }
}

proof fn lemma_unknown_update(
    states: Seq<Reachability>,
    place: int,
    next: Reachability,
    count: nat,
)
    requires
        0 <= place < states.len(),
        count <= states.len(),
        states[place].production ==> next.production,
        states[place].test ==> next.test,
    ensures
        unknown(states.update(place, next), count) <= unknown(states, count),
        place < count && next != states[place] ==> unknown(states.update(place, next), count)
            < unknown(states, count),
    decreases count,
{
    if count > 0 {
        lemma_unknown_update(states, place, next, (count - 1) as nat);
    }
}

/// Whether every root is known to be what it is.
spec fn roots_kept(roots: Seq<Reachability>, states: Seq<Reachability>) -> bool {
    forall|file: int|
        0 <= file < roots.len() ==> {
            &&& (#[trigger] roots[file]).production ==> states[file].production
            &&& roots[file].test ==> states[file].test
        }
}

/// Whether all waiting files exist.
spec fn pending_valid(pending: Seq<usize>, count: nat) -> bool {
    forall|place: int| 0 <= place < pending.len() ==> (#[trigger] pending[place]) < count
}

/// Whether each file but one waits or has passed on what it knows.
spec fn settled_but(
    edges: Seq<Seq<ModuleEdge>>,
    states: Seq<Reachability>,
    pending: Seq<usize>,
    file: usize,
) -> bool {
    forall|other: int|
        0 <= other < states.len() && other != file ==> pending.contains(other as usize)
            || #[trigger] passed_on(edges, states, other, edges[other].len() as int)
}

fn start_pending(roots: &Vec<Reachability>) -> (pending: Vec<usize>)
    ensures
        pending_valid(pending@, roots@.len()),
        forall|place: int|
            0 <= place < roots@.len() && ((#[trigger] roots@[place]).production
                || roots@[place].test) ==> pending@.contains(place as usize),
{
    let mut pending: Vec<usize> = Vec::new();
    let mut index: usize = 0;
    while index < roots.len()
        invariant
            index <= roots@.len(),
            pending_valid(pending@, roots@.len()),
            forall|place: int|
                0 <= place < index && ((#[trigger] roots@[place]).production
                    || roots@[place].test) ==> pending@.contains(place as usize),
        decreases roots@.len() - index,
    {
        let ghost held = pending@;
        if roots[index].production || roots[index].test {
            pending.push(index);
            proof {
                assert(pending@[pending@.len() - 1] == index);
                lemma_still_waiting(held, index);
            }
        }
        index += 1;
    }
    pending
}

proof fn lemma_still_waiting(queue: Seq<usize>, added: usize)
    ensures
        forall|other: usize| queue.contains(other) ==> #[trigger] queue.push(added).contains(other),
        queue.push(added).contains(added),
{
    let longer = queue.push(added);
    assert(longer[queue.len() as int] == added);
    assert forall|other: usize| queue.contains(other) implies #[trigger] longer.contains(other) by {
        let at = choose|at: int| 0 <= at < queue.len() && queue[at] == other;
        assert(longer[at] == other);
    }
}

/// Merges one declaration of a file. Says whether the declared file changed.
fn pass_one(
    edges: &Vec<Vec<ModuleEdge>>,
    Ghost(roots): Ghost<Seq<Reachability>>,
    states: &mut Vec<Reachability>,
    pending: &mut Vec<usize>,
    file: usize,
    step: usize,
)
    requires
        edges_valid(edge_lists(edges@)),
        roots.len() == edges@.len(),
        old(states)@.len() == edges@.len(),
        file < edges@.len(),
        step < edge_lists(edges@)[file as int].len(),
        sound(edge_lists(edges@), roots, old(states)@),
        settled_but(edge_lists(edges@), old(states)@, old(pending)@, file),
        old(pending)@.contains(file) || passed_on(
            edge_lists(edges@),
            old(states)@,
            file as int,
            step as int,
        ),
        pending_valid(old(pending)@, edges@.len()),
        roots_kept(roots, old(states)@),
    ensures
        final(states)@.len() == edges@.len(),
        sound(edge_lists(edges@), roots, final(states)@),
        settled_but(edge_lists(edges@), final(states)@, final(pending)@, file),
        final(pending)@.contains(file) || passed_on(
            edge_lists(edges@),
            final(states)@,
            file as int,
            step + 1,
        ),
        pending_valid(final(pending)@, edges@.len()),
        roots_kept(roots, final(states)@),
        unknown(final(states)@, edges@.len()) <= unknown(old(states)@, edges@.len()),
        unknown(final(states)@, edges@.len()) == unknown(old(states)@, edges@.len())
            ==> final(pending)@ == old(pending)@,
{
    let ghost graph = edge_lists(edges@);
    let total: usize = edges.len();
    let list = &edges[file];
    assert(list@ == graph[file as int]);
    let edge = list[step];
    assert(graph[file as int][step as int].child < edges@.len());
    let ghost held = states@;
    let ghost queue = pending@;
    let parent = states[file];
    let mut child = states[edge.child];
    let changed: bool = child.merge_from(parent, edge.test_only);
    proof {
        lemma_merge_sound(graph, roots, held, file, step as int);
        lemma_unknown_update(held, edge.child as int, child, held.len());
    }
    states.set(edge.child, child);
    if changed {
        pending.push(edge.child);
        proof {
            lemma_still_waiting(queue, edge.child);
        }
    } else {
        assert(states@ =~= held);
    }
    proof {
        assert forall|other: int| 0 <= other < states@.len() && other != file implies (
        pending@.contains(other as usize) || #[trigger] passed_on(
            graph,
            states@,
            other,
            graph[other].len() as int,
        )) by {
            if !pending@.contains(other as usize) {
                assert(!queue.contains(other as usize));
                assert(passed_on(graph, held, other, graph[other].len() as int));
                lemma_passed_on_kept(
                    graph,
                    held,
                    states@,
                    other,
                    graph[other].len() as int,
                    edge.child as int,
                );
            }
        }
        if !pending@.contains(file) {
            assert(!queue.contains(file));
            lemma_passed_on_kept(
                graph,
                held,
                states@,
                file as int,
                step as int,
                edge.child as int,
            );
        }
    }
}

/// From where each file is reached, given how it starts.
pub fn propagate_reachability(
    edges: &Vec<Vec<ModuleEdge>>,
    roots: &Vec<Reachability>,
) -> (states: Vec<Reachability>)
    requires
        roots@.len() == edges@.len(),
        edges_valid(edge_lists(edges@)),
    ensures
        states@.len() == roots@.len(),
        forall|file: int|
            0 <= file < states@.len() ==> {
                &&& (#[trigger] states@[file]).production <==> reached_by_production(
                    edge_lists(edges@),
                    roots@,
                    file as usize,
                )
                &&& states@[file].test <==> reached_by_tests(
                    edge_lists(edges@),
                    roots@,
                    file as usize,
                )
            },
{
    let ghost graph = edge_lists(edges@);
    let total: usize = edges.len();
    let mut pending: Vec<usize> = start_pending(roots);
    let mut states: Vec<Reachability> = roots.clone();
    proof {
        assert(states@ =~= roots@);
        lemma_roots_sound(graph, roots@);
        assert forall|file: int| 0 <= file < states@.len() implies pending@.contains(file as usize)
            || #[trigger] passed_on(graph, states@, file, graph[file].len() as int) by {
            if !(roots@[file].production || roots@[file].test) {
                assert(states@[file] == roots@[file]);
            } else {
                assert(pending@.contains(file as usize));
            }
        }
    }
    while pending.len() > 0
        invariant
            graph == edge_lists(edges@),
            total == edges@.len(),
            edges_valid(graph),
            roots@.len() == edges@.len(),
            states@.len() == edges@.len(),
            sound(graph, roots@, states@),
            settled(graph, states@, pending@),
            pending_valid(pending@, edges@.len()),
            roots_kept(roots@, states@),
        decreases unknown(states@, edges@.len()), pending@.len(),
    {
        let ghost waiting = pending@;
        let ghost before = unknown(states@, edges@.len());
        let file: usize = pending.pop().unwrap();
        let ghost rest = pending@;
        assert(waiting[waiting.len() - 1] == file);
        proof {
            assert forall|other: int| 0 <= other < states@.len() && other != file implies (
            pending@.contains(other as usize) || #[trigger] passed_on(
                graph,
                states@,
                other,
                graph[other].len() as int,
            )) by {
                if waiting.contains(other as usize) {
                    let at = choose|at: int| 0 <= at < waiting.len() && waiting[at] == other as usize;
                    assert(pending@[at] == other as usize);
                }
            }
            assert forall|place: int| 0 <= place < pending@.len() implies (
            #[trigger] pending@[place]) < edges@.len() by {
                assert(waiting[place] < edges@.len());
            }
        }
        let mut step: usize = 0;
        while step < edges[file].len()
            invariant
                graph == edge_lists(edges@),
                edges_valid(graph),
                file < edges@.len(),
                step <= graph[file as int].len(),
                roots@.len() == edges@.len(),
                states@.len() == edges@.len(),
                sound(graph, roots@, states@),
                settled_but(graph, states@, pending@, file),
                pending@.contains(file) || passed_on(graph, states@, file as int, step as int),
                pending_valid(pending@, edges@.len()),
                roots_kept(roots@, states@),
                unknown(states@, edges@.len()) <= before,
                unknown(states@, edges@.len()) == before ==> pending@ == rest,
            decreases graph[file as int].len() - step,
        {
            assert(edges@[file as int]@ == graph[file as int]);
            pass_one(edges, Ghost(roots@), &mut states, &mut pending, file, step);
            step += 1;
        }
        assert(edges@[file as int]@ == graph[file as int]);
    }
    proof {
        assert(pending@ =~= Seq::<usize>::empty());
        assert forall|file: int| 0 <= file < states@.len() implies {
            &&& (#[trigger] states@[file]).production <==> reached_by_production(
                graph,
                roots@,
                file as usize,
            )
            &&& states@[file].test <==> reached_by_tests(graph, roots@, file as usize)
        } by {
            lemma_all_reached(graph, roots@, states@, file as usize);
        }
    }
    states
}

proof fn lemma_roots_sound(edges: Seq<Seq<ModuleEdge>>, roots: Seq<Reachability>)
    requires
        roots.len() == edges.len(),
        roots.len() <= usize::MAX,
    ensures
        sound(edges, roots, roots),
{
    assert forall|file: int| 0 <= file < roots.len() implies {
        &&& (#[trigger] roots[file]).production ==> reached_by_production(
            edges,
            roots,
            file as usize,
        )
        &&& roots[file].test ==> reached_by_tests(edges, roots, file as usize)
    } by {
        let files = seq![file as usize];
        let steps = Seq::<int>::empty();
        assert(declared_path(edges, files, steps));
        assert(files.last() == file as usize);
    }
}

proof fn lemma_all_reached(
    edges: Seq<Seq<ModuleEdge>>,
    roots: Seq<Reachability>,
    states: Seq<Reachability>,
    file: usize,
)
    requires
        edges_valid(edges),
        roots.len() == edges.len(),
        states.len() == edges.len(),
        settled(edges, states, Seq::empty()),
        roots_kept(roots, states),
    ensures
        reached_by_production(edges, roots, file) ==> states[file as int].production,
        reached_by_tests(edges, roots, file) ==> states[file as int].test,
{
    if reached_by_production(edges, roots, file) {
        let (files, steps) = choose|files: Seq<usize>, steps: Seq<int>| #[trigger]
            declared_path(edges, files, steps) && files.last() == file
                && roots[files[0] as int].production && !passes_test(edges, files, steps);
        lemma_complete(edges, roots, states, files, steps, files.len() - 1);
        assert(files.take(files.len() as int) =~= files);
        assert(steps.take(steps.len() as int) =~= steps);
    }
    if reached_by_tests(edges, roots, file) {
        let (files, steps) = choose|files: Seq<usize>, steps: Seq<int>| #[trigger]
            declared_path(edges, files, steps) && files.last() == file && (
            roots[files[0] as int].test || (roots[files[0] as int].production && passes_test(
                edges,
                files,
                steps,
            )));
        lemma_complete(edges, roots, states, files, steps, files.len() - 1);
        assert(files.take(files.len() as int) =~= files);
        assert(steps.take(steps.len() as int) =~= steps);
    }
}

proof fn lemma_passed_on_kept(
    edges: Seq<Seq<ModuleEdge>>,
    before: Seq<Reachability>,
    after: Seq<Reachability>,
    file: int,
    count: int,
    changed: int,
)
    requires
        edges_valid(edges),
        0 <= file < edges.len(),
        0 <= count <= edges[file].len(),
        before.len() == edges.len(),
        after.len() == edges.len(),
        passed_on(edges, before, file, count),
        before[file] == after[file],
        0 <= changed < before.len(),
        forall|other: int| 0 <= other < before.len() && other != changed ==> before[other]
            == after[other],
        before[changed].production ==> after[changed].production,
        before[changed].test ==> after[changed].test,
    ensures
        passed_on(edges, after, file, count),
{
    assert forall|index: int| 0 <= index < count implies ({
        let edge = #[trigger] edges[file][index];
        merged(after[edge.child as int], after[file], edge.test_only) == after[edge.child as int]
    }) by {
        let edge = edges[file][index];
        assert(edge.child < edges.len());
        assert(merged(before[edge.child as int], before[file], edge.test_only)
            == before[edge.child as int]);
    }
}

/// Whether some file declares this one.
pub open spec fn declared(edges: Seq<Seq<ModuleEdge>>, file: int) -> bool {
    exists|from: int, index: int|
        0 <= from < edges.len() && 0 <= index < edges[from].len() && (
        #[trigger] edges[from][index]).child == file
}

/// How a file starts: a test target as a test, and any other file that nothing
/// declares as production code.
pub open spec fn root_states(
    tests: Seq<bool>,
    edges: Seq<Seq<ModuleEdge>>,
) -> Seq<Reachability> {
    Seq::new(
        tests.len(),
        |file: int|
            Reachability {
                production: !declared(edges, file) && !tests[file],
                test: tests[file],
            },
    )
}

/// Whether a file is reached from tests and not from production code.
pub open spec fn test_only(tests: Seq<bool>, edges: Seq<Seq<ModuleEdge>>, file: int) -> bool {
    let roots = root_states(tests, edges);
    reached_by_tests(edges, roots, file as usize) && !reached_by_production(
        edges,
        roots,
        file as usize,
    )
}

fn list_declared(edges: &Vec<Vec<ModuleEdge>>) -> (incoming: Vec<bool>)
    requires
        edges_valid(edge_lists(edges@)),
    ensures
        incoming@.len() == edges@.len(),
        forall|file: int|
            0 <= file < incoming@.len() ==> (#[trigger] incoming@[file] <==> declared(
                edge_lists(edges@),
                file,
            )),
{
    let ghost graph = edge_lists(edges@);
    let mut incoming: Vec<bool> = Vec::new();
    while incoming.len() < edges.len()
        invariant
            incoming@.len() <= edges@.len(),
            forall|file: int| 0 <= file < incoming@.len() ==> !#[trigger] incoming@[file],
        decreases edges@.len() - incoming@.len(),
    {
        incoming.push(false);
    }
    let mut from: usize = 0;
    while from < edges.len()
        invariant
            from <= edges@.len(),
            incoming@.len() == edges@.len(),
            graph == edge_lists(edges@),
            edges_valid(graph),
            forall|file: int|
                0 <= file < incoming@.len() && #[trigger] incoming@[file] ==> declared(graph, file),
            forall|earlier: int, index: int|
                0 <= earlier < from && 0 <= index < graph[earlier].len() ==> incoming@[(
                #[trigger] graph[earlier][index]).child as int],
        decreases edges@.len() - from,
    {
        let list = &edges[from];
        assert(list@ == graph[from as int]);
        let mut index: usize = 0;
        while index < list.len()
            invariant
                index <= list@.len(),
                from < edges@.len(),
                list@ == graph[from as int],
                incoming@.len() == edges@.len(),
                graph == edge_lists(edges@),
                edges_valid(graph),
                forall|file: int|
                    0 <= file < incoming@.len() && #[trigger] incoming@[file] ==> declared(
                        graph,
                        file,
                    ),
                forall|earlier: int, place: int|
                    (0 <= earlier < from && 0 <= place < graph[earlier].len()) || (earlier == from
                        && 0 <= place < index) ==> incoming@[(
                    #[trigger] graph[earlier][place]).child as int],
            decreases list@.len() - index,
        {
            assert(graph[from as int][index as int].child < edges@.len());
            incoming.set(list[index].child, true);
            assert(declared(graph, graph[from as int][index as int].child as int));
            index += 1;
        }
        from += 1;
    }
    incoming
}

/// Resolve test-only external modules while preserving production
/// reachability. `tests` marks the files that Cargo builds as tests.
pub fn discover_test_context_files(
    tests: &Vec<bool>,
    edges: &Vec<Vec<ModuleEdge>>,
) -> (result: Vec<bool>)
    requires
        tests@.len() == edges@.len(),
        edges_valid(edge_lists(edges@)),
    ensures
        result@.len() == tests@.len(),
        forall|file: int|
            0 <= file < result@.len() ==> (#[trigger] result@[file] <==> test_only(
                tests@,
                edge_lists(edges@),
                file,
            )),
{
    let ghost graph = edge_lists(edges@);
    let incoming = list_declared(edges);
    let mut roots: Vec<Reachability> = Vec::new();
    while roots.len() < tests.len()
        invariant
            roots@.len() <= tests@.len(),
            tests@.len() == edges@.len(),
            incoming@.len() == edges@.len(),
            graph == edge_lists(edges@),
            forall|file: int|
                0 <= file < incoming@.len() ==> (#[trigger] incoming@[file] <==> declared(
                    graph,
                    file,
                )),
            roots@ =~= root_states(tests@, graph).take(roots@.len() as int),
        decreases tests@.len() - roots@.len(),
    {
        let file: usize = roots.len();
        roots.push(
            Reachability { production: !incoming[file] && !tests[file], test: tests[file] },
        );
    }
    assert(roots@ =~= root_states(tests@, graph));
    let states = propagate_reachability(edges, &roots);
    let mut result: Vec<bool> = Vec::new();
    while result.len() < states.len()
        invariant
            result@.len() <= states@.len(),
            states@.len() == tests@.len(),
            roots@ == root_states(tests@, graph),
            forall|file: int|
                0 <= file < states@.len() ==> {
                    &&& (#[trigger] states@[file]).production <==> reached_by_production(
                        graph,
                        roots@,
                        file as usize,
                    )
                    &&& states@[file].test <==> reached_by_tests(graph, roots@, file as usize)
                },
            forall|file: int|
                0 <= file < result@.len() ==> (#[trigger] result@[file] <==> test_only(
                    tests@,
                    graph,
                    file,
                )),
        decreases states@.len() - result@.len(),
    {
        let state = states[result.len()];
        result.push(state.test && !state.production);
    }
    result
}

}
