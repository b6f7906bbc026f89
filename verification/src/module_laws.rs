//! What the modules of Rust source make of its files.
use vstd::prelude::*;
use crate::modules::{file_at, known_at, module_places, KnownFile, ModulePlace};
use crate::paths::parent;
use crate::reachability::{
    declared, declared_path, edges_valid, passes_test, reached_by_production, reached_by_tests,
    root_states, test_only, ModuleEdge,
};
use crate::rust::ModuleDeclarationView;
use crate::text::ends;

verus! {

proof fn lemma_alone(edges: Seq<Seq<ModuleEdge>>, file: usize)
    requires
        file < edges.len(),
    ensures
        declared_path(edges, seq![file], Seq::<int>::empty()),
        !passes_test(edges, seq![file], Seq::<int>::empty()),
{
}

/// A file that no other declares, and that is no test target, is production code.
pub proof fn undeclared_files_are_production(
    tests: Seq<bool>,
    edges: Seq<Seq<ModuleEdge>>,
    file: usize,
)
    requires
        tests.len() == edges.len(),
        file < edges.len(),
        !declared(edges, file as int),
        !tests[file as int],
    ensures
        !test_only(tests, edges, file as int),
{
    lemma_alone(edges, file);
    assert(seq![file].last() == file);
    assert(reached_by_production(edges, root_states(tests, edges), file));
}

/// A test target that no file declares is for tests alone.
pub proof fn undeclared_test_targets_are_tests(
    tests: Seq<bool>,
    edges: Seq<Seq<ModuleEdge>>,
    file: usize,
)
    requires
        tests.len() == edges.len(),
        file < edges.len(),
        !declared(edges, file as int),
        tests[file as int],
    ensures
        test_only(tests, edges, file as int),
{
    let roots = root_states(tests, edges);
    lemma_alone(edges, file);
    assert(seq![file].last() == file);
    assert(reached_by_tests(edges, roots, file));
    if reached_by_production(edges, roots, file) {
        let (files, steps) = choose|files: Seq<usize>, steps: Seq<int>| #[trigger]
            declared_path(edges, files, steps) && files.last() == file
                && roots[files[0] as int].production && !passes_test(edges, files, steps);
        lemma_last_step(edges, files, steps);
    }
}

proof fn lemma_last_step(edges: Seq<Seq<ModuleEdge>>, files: Seq<usize>, steps: Seq<int>)
    requires
        declared_path(edges, files, steps),
    ensures
        steps.len() > 0 ==> declared(edges, files.last() as int),
        steps.len() > 0 ==> {
            let from = files[steps.len() - 1] as int;
            let step = steps.last();
            &&& 0 <= from < edges.len()
            &&& 0 <= step < edges[from].len()
            &&& edges[from][step].child == files.last()
        },
{
    if steps.len() > 0 {
        let last = steps.len() - 1;
        assert(0 <= steps[last] < edges[files[last] as int].len());
        assert(edges[files[last] as int][steps[last]].child == files[last + 1]);
    }
}

proof fn lemma_extended(
    edges: Seq<Seq<ModuleEdge>>,
    files: Seq<usize>,
    steps: Seq<int>,
    step: int,
)
    requires
        edges_valid(edges),
        declared_path(edges, files, steps),
        0 <= step < edges[files.last() as int].len(),
    ensures
        ({
            let edge = edges[files.last() as int][step];
            let longer = files.push(edge.child);
            &&& declared_path(edges, longer, steps.push(step))
            &&& longer.last() == edge.child
            &&& longer[0] == files[0]
            &&& passes_test(edges, longer, steps.push(step)) <==> passes_test(edges, files, steps)
                || edge.test_only
        }),
{
    let from = files.last();
    assert(from == files[files.len() - 1]);
    assert(from < edges.len());
    let edge = edges[from as int][step];
    let longer = files.push(edge.child);
    let more = steps.push(step);
    assert forall|index: int| 0 <= index < more.len() implies {
        &&& 0 <= #[trigger] more[index] < edges[longer[index] as int].len()
        &&& edges[longer[index] as int][more[index]].child == longer[index + 1]
    } by {
        if index < steps.len() {
            assert(more[index] == steps[index]);
            assert(0 <= steps[index] < edges[files[index] as int].len());
        }
    }
    if passes_test(edges, files, steps) {
        let index = choose|index: int|
            0 <= index < steps.len()
                && edges[files[index] as int][#[trigger] steps[index]].test_only;
        assert(edges[longer[index] as int][more[index]].test_only);
    }
    if edge.test_only {
        assert(edges[longer[steps.len() as int] as int][more[steps.len() as int]].test_only);
    }
    if passes_test(edges, longer, more) && !edge.test_only {
        let index = choose|index: int|
            0 <= index < more.len()
                && edges[longer[index] as int][#[trigger] more[index]].test_only;
        assert(edges[files[index] as int][steps[index]].test_only);
    }
}

/// What production code declares, not for tests alone, is production code.
pub proof fn production_declares_production(
    tests: Seq<bool>,
    edges: Seq<Seq<ModuleEdge>>,
    file: usize,
    step: int,
)
    requires
        tests.len() == edges.len(),
        edges_valid(edges),
        file < edges.len(),
        0 <= step < edges[file as int].len(),
        !edges[file as int][step].test_only,
        reached_by_production(edges, root_states(tests, edges), file),
    ensures
        !test_only(tests, edges, edges[file as int][step].child as int),
{
    let roots = root_states(tests, edges);
    let (files, steps) = choose|files: Seq<usize>, steps: Seq<int>| #[trigger]
        declared_path(edges, files, steps) && files.last() == file
            && roots[files[0] as int].production && !passes_test(edges, files, steps);
    lemma_extended(edges, files, steps, step);
    let child = edges[file as int][step].child;
    assert(reached_by_production(edges, roots, child));
}

/// A file that is declared for tests alone, wherever it is declared, is for tests alone
/// where anything that is reached declares it.
pub proof fn declarations_for_tests_make_tests(
    tests: Seq<bool>,
    edges: Seq<Seq<ModuleEdge>>,
    file: usize,
    step: int,
)
    requires
        tests.len() == edges.len(),
        edges_valid(edges),
        file < edges.len(),
        0 <= step < edges[file as int].len(),
        reached_by_production(edges, root_states(tests, edges), file) || reached_by_tests(
            edges,
            root_states(tests, edges),
            file,
        ),
        forall|from: int, index: int|
            0 <= from < edges.len() && 0 <= index < edges[from].len() && (
            #[trigger] edges[from][index]).child == edges[file as int][step].child
                ==> edges[from][index].test_only,
    ensures
        test_only(tests, edges, edges[file as int][step].child as int),
{
    let roots = root_states(tests, edges);
    let child = edges[file as int][step].child;
    assert(edges[file as int][step].test_only);
    assert(declared(edges, child as int));
    if reached_by_production(edges, roots, file) {
        let (files, steps) = choose|files: Seq<usize>, steps: Seq<int>| #[trigger]
            declared_path(edges, files, steps) && files.last() == file
                && roots[files[0] as int].production && !passes_test(edges, files, steps);
        lemma_extended(edges, files, steps, step);
    } else {
        let (files, steps) = choose|files: Seq<usize>, steps: Seq<int>| #[trigger]
            declared_path(edges, files, steps) && files.last() == file && (
            roots[files[0] as int].test || (roots[files[0] as int].production && passes_test(
                edges,
                files,
                steps,
            )));
        lemma_extended(edges, files, steps, step);
    }
    assert(reached_by_tests(edges, roots, child));
    if reached_by_production(edges, roots, child) {
        let (files, steps) = choose|files: Seq<usize>, steps: Seq<int>| #[trigger]
            declared_path(edges, files, steps) && files.last() == child
                && roots[files[0] as int].production && !passes_test(edges, files, steps);
        lemma_last_step(edges, files, steps);
        assert(files[0] < edges.len());
        if steps.len() == 0 {
            assert(files[0] == child);
        } else {
            let last = steps.len() - 1;
            assert(edges[files[last] as int][steps[last]].test_only);
        }
    }
}

proof fn lemma_known(files: Seq<KnownFile>, path: Seq<char>, start: int)
    requires
        0 <= start <= files.len(),
    ensures
        match known_at(files, path, start) {
            Some(file) => {
                &&& start <= file < files.len()
                &&& files[file].is_rust
                &&& files[file].path@ == path
                &&& forall|index: int|
                    start <= index < file ==> !((#[trigger] files[index]).is_rust
                        && files[index].path@ == path)
            },
            None => forall|index: int|
                start <= index < files.len() ==> !((#[trigger] files[index]).is_rust
                    && files[index].path@ == path),
        },
    decreases files.len() - start,
{
    if start < files.len() {
        lemma_known(files, path, start + 1);
    }
}

/// The file of a place is a Rust file that has the path of the place, or, where none
/// has, the path that the place has once links are followed.
pub proof fn modules_are_found_by_their_paths(files: Seq<KnownFile>, place: ModulePlace)
    ensures
        file_at(files, place) matches Some(file) ==> {
            &&& 0 <= file < files.len()
            &&& files[file].is_rust
            &&& files[file].path@ == place.path@ || (place.canonical is Some
                && files[file].path@ == place.canonical->Some_0@)
        },
        (exists|index: int|
            0 <= index < files.len() && (#[trigger] files[index]).is_rust && files[index].path@
                == place.path@) ==> file_at(files, place) is Some && files[file_at(
            files,
            place,
        )->Some_0].path@ == place.path@,
        file_at(files, place) is None && place.canonical is Some ==> forall|index: int|
            0 <= index < files.len() ==> !((#[trigger] files[index]).is_rust
                && files[index].path@ == place.canonical->Some_0@),
{
    lemma_known(files, place.path@, 0);
    if place.canonical is Some {
        lemma_known(files, place.canonical->Some_0@, 0);
    }
}

/// A module that a file of a folder declares is looked for in the folder, under its
/// name, as a file and then as a folder; one with a path is looked for there alone.
pub proof fn modules_are_looked_for_beside_their_file(
    file: Seq<char>,
    declaration: ModuleDeclarationView,
)
    requires
        parent(file).len() > 0,
        !ends(parent(file), "/"@),
        declaration.name.len() > 0,
        !declaration.name.contains('/'),
    ensures
        declaration.path is None ==> module_places(file, declaration) == seq![
            parent(file) + "/"@ + (declaration.name + ".rs"@),
            parent(file) + "/"@ + declaration.name + "/"@ + "mod.rs"@,
        ],
        declaration.path matches Some(path) ==> module_places(file, declaration).len() == 1
            && module_places(file, declaration)[0] == if path.len() > 0 && path[0] == '/' {
            path
        } else {
            parent(file) + "/"@ + path
        },
{
    reveal_strlit("/");
    reveal_strlit(".rs");
    reveal_strlit("mod.rs");
    let folder = parent(file);
    let name = declaration.name;
    assert(name[0] != '/');
    assert((name + ".rs"@)[0] == name[0]);
    let inner = folder + "/"@ + name;
    assert(!ends(inner, "/"@)) by {
        assert(inner.skip(inner.len() - 1)[0] == name[name.len() - 1]);
        assert(name[name.len() - 1] != '/');
        assert("/"@[0] == '/');
    }
    assert("mod.rs"@[0] == 'm');
}

}
