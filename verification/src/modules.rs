//! Which file holds a module that another file declares.
use vstd::prelude::*;
use vstd::string::StringExecFns;
use crate::paths::{absolute, is_absolute, parent, parent_of};
use crate::reachability::{edge_lists, edges_valid, ModuleEdge};
use crate::rust::{ModuleDeclaration, ModuleDeclarationView};
use crate::text::{ends, ends_with, same_text, texts};

verus! {

/// A path from a folder on. An absolute path is taken as it is.
pub open spec fn joined_path(folder: Seq<char>, path: Seq<char>) -> Seq<char> {
    if absolute(path) || folder.len() == 0 {
        path
    } else if ends(folder, "/"@) {
        folder + path
    } else {
        folder + "/"@ + path
    }
}

fn join_path(folder: &str, path: &str) -> (result: String)
    ensures
        result@ == joined_path(folder@, path@),
{
    proof {
        reveal_strlit("");
    }
    if is_absolute(path) {
        return path.to_owned();
    }
    let empty = same_text(folder, "");
    assert(empty == (folder@ =~= ""@));
    if empty {
        return path.to_owned();
    }
    let mut result = folder.to_owned();
    if !ends_with(folder, "/") {
        result.append("/");
    }
    result.append(path);
    result
}

/// Where the file of a module that `file` declares may be.
pub open spec fn module_places(file: Seq<char>, declaration: ModuleDeclarationView) -> Seq<
    Seq<char>,
> {
    let folder = parent(file);
    match declaration.path {
        Some(path) => seq![joined_path(folder, path)],
        None => seq![
            joined_path(folder, declaration.name + ".rs"@),
            joined_path(joined_path(folder, declaration.name), "mod.rs"@),
        ],
    }
}

/// Lists where the file of a module that `file` declares may be.
pub fn list_module_places(file: &str, declaration: &ModuleDeclaration) -> (places: Vec<String>)
    ensures
        texts(places@) == module_places(file@, declaration@),
{
    let folder = parent_of(file);
    let mut places: Vec<String> = Vec::new();
    match &declaration.path {
        Some(path) => {
            places.push(join_path(folder.as_str(), path.as_str()));
        },
        None => {
            let mut name = declaration.name.clone();
            name.append(".rs");
            places.push(join_path(folder.as_str(), name.as_str()));
            let inner = join_path(folder.as_str(), declaration.name.as_str());
            places.push(join_path(inner.as_str(), "mod.rs"));
        },
    }
    assert(texts(places@) =~= module_places(file@, declaration@));
    places
}

/// A place where the file of a module may be: its path, and where that leads
/// once links are followed, where it leads anywhere.
#[derive(Debug)]
pub struct ModulePlace {
    pub path: String,
    pub canonical: Option<String>,
}

/// A module that another file holds, with the places where it may be.
#[derive(Debug)]
pub struct PlacedModule {
    pub places: Vec<ModulePlace>,
    pub test_only: bool,
}

/// A file that modules may lead to.
#[derive(Debug)]
pub struct KnownFile {
    pub path: String,
    pub is_rust: bool,
}

/// Which of the Rust files from `start` on has a path.
pub open spec fn known_at(files: Seq<KnownFile>, path: Seq<char>, start: int) -> Option<int>
    decreases files.len() - start,
{
    if start < 0 || start >= files.len() {
        None
    } else if files[start].is_rust && files[start].path@ == path {
        Some(start)
    } else {
        known_at(files, path, start + 1)
    }
}

/// Which Rust file stands at a place: by its path, or else once links are
/// followed.
pub open spec fn file_at(files: Seq<KnownFile>, place: ModulePlace) -> Option<int> {
    match (known_at(files, place.path@, 0), place.canonical) {
        (Some(file), _) => Some(file),
        (None, Some(path)) => known_at(files, path@, 0),
        (None, None) => None,
    }
}

/// Which Rust file stands at the first of the places from `start` on where one
/// stands.
pub open spec fn module_file(files: Seq<KnownFile>, places: Seq<ModulePlace>, start: int) -> Option<
    int,
>
    decreases places.len() - start,
{
    if start < 0 || start >= places.len() {
        None
    } else {
        match file_at(files, places[start]) {
            Some(file) => Some(file),
            None => module_file(files, places, start + 1),
        }
    }
}

/// Where the first `count` modules lead to.
pub open spec fn module_edges(
    files: Seq<KnownFile>,
    modules: Seq<PlacedModule>,
    count: nat,
) -> Seq<ModuleEdge>
    decreases count,
{
    if count == 0 {
        Seq::empty()
    } else {
        let earlier = module_edges(files, modules, (count - 1) as nat);
        match module_file(files, modules[count - 1].places@, 0) {
            Some(file) => earlier.push(
                ModuleEdge { child: file as usize, test_only: modules[count - 1].test_only },
            ),
            None => earlier,
        }
    }
}

/// Where the modules of each file lead to.
pub open spec fn all_edges(files: Seq<KnownFile>, modules: Seq<Vec<PlacedModule>>) -> Seq<
    Seq<ModuleEdge>,
> {
    modules.map_values(|list: Vec<PlacedModule>| module_edges(files, list@, list@.len()))
}

fn find_known(files: &Vec<KnownFile>, path: &str) -> (found: Option<usize>)
    ensures
        match (found, known_at(files@, path@, 0)) {
            (Some(index), Some(expected)) => index == expected && index < files@.len(),
            (None, None) => true,
            _ => false,
        },
{
    let mut index: usize = 0;
    while index < files.len()
        invariant
            index <= files@.len(),
            known_at(files@, path@, 0) == known_at(files@, path@, index as int),
        decreases files@.len() - index,
    {
        if files[index].is_rust && same_text(files[index].path.as_str(), path) {
            return Some(index);
        }
        index += 1;
    }
    None
}

fn find_module_file(files: &Vec<KnownFile>, places: &Vec<ModulePlace>) -> (found: Option<usize>)
    ensures
        match (found, module_file(files@, places@, 0)) {
            (Some(index), Some(expected)) => index == expected && index < files@.len(),
            (None, None) => true,
            _ => false,
        },
{
    let mut index: usize = 0;
    while index < places.len()
        invariant
            index <= places@.len(),
            module_file(files@, places@, 0) == module_file(files@, places@, index as int),
        decreases places@.len() - index,
    {
        let place = &places[index];
        if let Some(file) = find_known(files, place.path.as_str()) {
            return Some(file);
        }
        if let Some(path) = &place.canonical {
            if let Some(file) = find_known(files, path.as_str()) {
                return Some(file);
            }
        }
        index += 1;
    }
    None
}

fn list_edges(files: &Vec<KnownFile>, modules: &Vec<PlacedModule>) -> (edges: Vec<ModuleEdge>)
    ensures
        edges@ == module_edges(files@, modules@, modules@.len()),
        forall|index: int|
            0 <= index < edges@.len() ==> (#[trigger] edges@[index]).child < files@.len(),
{
    let mut edges: Vec<ModuleEdge> = Vec::new();
    let mut index: usize = 0;
    while index < modules.len()
        invariant
            index <= modules@.len(),
            edges@ == module_edges(files@, modules@, index as nat),
            forall|place: int|
                0 <= place < edges@.len() ==> (#[trigger] edges@[place]).child < files@.len(),
        decreases modules@.len() - index,
    {
        if let Some(child) = find_module_file(files, &modules[index].places) {
            edges.push(ModuleEdge { child, test_only: modules[index].test_only });
        }
        index += 1;
    }
    edges
}

/// Finds where the modules of each file lead to.
pub fn resolve_modules(files: &Vec<KnownFile>, modules: &Vec<Vec<PlacedModule>>) -> (edges: Vec<
    Vec<ModuleEdge>,
>)
    requires
        modules@.len() == files@.len(),
    ensures
        edge_lists(edges@) == all_edges(files@, modules@),
        edges@.len() == files@.len(),
        edges_valid(edge_lists(edges@)),
{
    let mut edges: Vec<Vec<ModuleEdge>> = Vec::new();
    while edges.len() < modules.len()
        invariant
            edges@.len() <= modules@.len(),
            modules@.len() == files@.len(),
            edge_lists(edges@) =~= all_edges(files@, modules@).take(edges@.len() as int),
            forall|file: int, index: int|
                0 <= file < edges@.len() && 0 <= index < edges@[file]@.len() ==> (
                #[trigger] edges@[file]@[index]).child < files@.len(),
        decreases modules@.len() - edges@.len(),
    {
        let ghost held = edges@;
        let list = list_edges(files, &modules[edges.len()]);
        edges.push(list);
        assert forall|file: int, index: int|
            0 <= file < edges@.len() && 0 <= index < edges@[file]@.len() implies (
        #[trigger] edges@[file]@[index]).child < files@.len() by {
            if file < held.len() {
                assert(edges@[file] == held[file]);
            }
        }
    }
    assert(edge_lists(edges@) =~= all_edges(files@, modules@));
    assert forall|file: int, index: int|
        0 <= file < edge_lists(edges@).len() && 0 <= index < edge_lists(edges@)[file].len() implies (
    #[trigger] edge_lists(edges@)[file][index]).child < edge_lists(edges@).len() by {
        assert(edge_lists(edges@)[file][index] == edges@[file]@[index]);
    }
    edges
}

}
