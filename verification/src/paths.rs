//! Paths as texts: components separated by `/`.
use vstd::prelude::*;
use vstd::string::{StrSliceExecFns, StringExecFns};
use crate::order::{list_relation, text_order, Relation};
use crate::text::{characters, compare_texts, join, joined, same_text, texts};

verus! {

/// Where the piece of a path that starts at `start` ends.
pub open spec fn piece_end(path: Seq<char>, start: int) -> int
    decreases path.len() - start,
{
    if start >= path.len() {
        path.len() as int
    } else if path[start] == '/' {
        start
    } else {
        piece_end(path, start + 1)
    }
}

/// Whether a piece of a path names something.
pub open spec fn names_something(piece: Seq<char>) -> bool {
    piece.len() > 0 && piece != "."@
}

/// The components of a path from `start` on.
pub open spec fn components_from(path: Seq<char>, start: int) -> Seq<Seq<char>>
    decreases path.len() + 1 - start,
{
    let end = piece_end(path, start);
    if end < start || start > path.len() {
        Seq::empty()
    } else {
        let rest = if end < path.len() {
            components_from(path, end + 1)
        } else {
            Seq::empty()
        };
        let piece = path.subrange(start, end);
        if names_something(piece) {
            seq![piece] + rest
        } else {
            rest
        }
    }
}

/// The components of a path; empty pieces and `.` are none.
pub open spec fn components(path: Seq<char>) -> Seq<Seq<char>> {
    components_from(path, 0)
}

/// Whether a path starts at the root of the file system.
pub open spec fn absolute(path: Seq<char>) -> bool {
    path.len() > 0 && path[0] == '/'
}

/// The last component of a path, where it is a name.
pub open spec fn file_name(path: Seq<char>) -> Option<Seq<char>> {
    let parts = components(path);
    if parts.len() > 0 && parts.last() != ".."@ {
        Some(parts.last())
    } else {
        None
    }
}

/// Where the last dot among the first `end` characters of a name is.
pub open spec fn last_dot(name: Seq<char>, end: int) -> Option<int>
    decreases end,
{
    if end <= 0 {
        None
    } else if name[end - 1] == '.' {
        Some(end - 1)
    } else {
        last_dot(name, end - 1)
    }
}

/// What stands behind the last dot of a file name that does not start with it.
pub open spec fn name_extension(name: Seq<char>) -> Option<Seq<char>> {
    match last_dot(name, name.len() as int) {
        Some(dot) => if dot > 0 {
            Some(name.skip(dot + 1))
        } else {
            None
        },
        None => None,
    }
}

/// The extension of the file that a path names.
pub open spec fn extension(path: Seq<char>) -> Option<Seq<char>> {
    match file_name(path) {
        Some(name) => name_extension(name),
        None => None,
    }
}

/// A path in a list of components, whatever it starts with.
pub open spec fn under(path: Seq<Seq<char>>, root: Seq<Seq<char>>) -> bool {
    path.len() >= root.len() && path.take(root.len() as int) == root
}

/// A text with every `\` made `/`.
pub open spec fn with_slashes(text: Seq<char>) -> Seq<char> {
    text.map_values(
        |character: char|
            if character == '\\' {
                '/'
            } else {
                character
            },
    )
}

/// A path as it is shown: relative to the root, where it lies under it.
pub open spec fn shown_path(path: Seq<char>, root: Seq<char>) -> Seq<char> {
    with_slashes(
        if absolute(path) == absolute(root) && under(components(path), components(root)) {
            joined(components(path).skip(components(root).len() as int), "/"@)
        } else {
            path
        },
    )
}

/// The order of paths: component by component.
pub open spec fn path_relation(left: Seq<char>, right: Seq<char>) -> Relation {
    list_relation(components(left), components(right), text_order())
}

fn is_name(piece: &str) -> (answer: bool)
    ensures
        answer == names_something(piece@),
{
    !piece.is_empty() && !same_text(piece, ".")
}

pub fn split_components(path: &str) -> (parts: Vec<String>)
    ensures
        texts(parts@) == components(path@),
{
    let all = characters(path);
    let mut parts: Vec<String> = Vec::new();
    let mut start: usize = 0;
    let mut index: usize = 0;
    assert(texts(parts@) + components(path@) =~= components(path@));
    while index < all.len()
        invariant
            all@ == path@,
            start <= index <= all@.len(),
            piece_end(path@, start as int) == piece_end(path@, index as int),
            texts(parts@) + components_from(path@, start as int) == components(path@),
        decreases all@.len() - index,
    {
        if all[index] == '/' {
            let ghost held = texts(parts@);
            let piece = path.substring_char(start, index);
            if is_name(piece) {
                parts.push(piece.to_owned());
                assert(texts(parts@) =~= held.push(piece@));
            }
            assert(texts(parts@) + components_from(path@, index + 1) =~= held + components_from(
                path@,
                start as int,
            ));
            index += 1;
            start = index;
        } else {
            index += 1;
        }
    }
    let ghost held = texts(parts@);
    let piece = path.substring_char(start, all.len());
    if is_name(piece) {
        parts.push(piece.to_owned());
        assert(texts(parts@) =~= held.push(piece@));
    }
    assert(texts(parts@) =~= held + components_from(path@, start as int));
    parts
}

pub fn name_of(path: &str) -> (name: Option<String>)
    ensures
        match (name, file_name(path@)) {
            (Some(found), Some(expected)) => found@ == expected,
            (None, None) => true,
            _ => false,
        },
{
    let mut parts = split_components(path);
    let ghost expected = components(path@);
    assert(texts(parts@).len() == parts@.len());
    match parts.pop() {
        Some(last) => {
            assert(last@ == expected.last());
            if same_text(last.as_str(), "..") {
                None
            } else {
                Some(last)
            }
        },
        None => None,
    }
}

pub fn extension_of(path: &str) -> (result: Option<String>)
    ensures
        match (result, extension(path@)) {
            (Some(found), Some(expected)) => found@ == expected,
            (None, None) => true,
            _ => false,
        },
{
    let name = match name_of(path) {
        Some(name) => name,
        None => return None,
    };
    let all = characters(name.as_str());
    let mut end: usize = all.len();
    while end > 0 && all[end - 1] != '.'
        invariant
            end <= all@.len(),
            all@ == name@,
            last_dot(name@, name@.len() as int) == last_dot(name@, end as int),
        decreases end,
    {
        end -= 1;
    }
    if end <= 1 {
        return None;
    }
    let result = name.as_str().substring_char(end, all.len());
    assert(result@ =~= name@.skip(end as int));
    Some(result.to_owned())
}

pub fn is_absolute(path: &str) -> (answer: bool)
    ensures
        answer == absolute(path@),
{
    !path.is_empty() && path.get_char(0) == '/'
}

fn starts_with_components(parts: &Vec<String>, root: &Vec<String>) -> (answer: bool)
    ensures
        answer == under(texts(parts@), texts(root@)),
{
    if parts.len() < root.len() {
        return false;
    }
    let mut index: usize = 0;
    while index < root.len()
        invariant
            index <= root@.len() <= parts@.len(),
            forall|earlier: int|
                0 <= earlier < index ==> texts(parts@)[earlier] == texts(root@)[earlier],
        decreases root@.len() - index,
    {
        if parts[index] != root[index] {
            assert(texts(parts@).take(root@.len() as int)[index as int] != texts(
                root@,
            )[index as int]);
            return false;
        }
        assert(texts(parts@)[index as int] == texts(root@)[index as int]);
        index += 1;
    }
    assert(texts(parts@).take(root@.len() as int) =~= texts(root@));
    true
}

fn replace_backslashes(text: &str) -> (result: String)
    ensures
        result@ == with_slashes(text@),
{
    let all = characters(text);
    let mut result = String::new();
    let mut index: usize = 0;
    while index < all.len()
        invariant
            index <= all@.len(),
            all@ == text@,
            result@ =~= with_slashes(text@).take(index as int),
        decreases all@.len() - index,
    {
        if all[index] == '\\' {
            result.push('/');
        } else {
            result.push(all[index]);
        }
        index += 1;
    }
    assert(result@ =~= with_slashes(text@));
    result
}

/// A path as reports show it.
pub fn display_path(path: &str, root: &str) -> (shown: String)
    ensures
        shown@ == shown_path(path@, root@),
{
    let parts = split_components(path);
    let base = split_components(root);
    if is_absolute(path) != is_absolute(root) || !starts_with_components(&parts, &base) {
        return replace_backslashes(path);
    }
    let ghost whole = texts(parts@);
    let mut rest: Vec<String> = Vec::new();
    let mut index: usize = base.len();
    assert(texts(base@).len() == base@.len());
    while index < parts.len()
        invariant
            base@.len() <= index <= parts@.len(),
            whole == texts(parts@),
            texts(rest@) =~= whole.subrange(base@.len() as int, index as int),
        decreases parts@.len() - index,
    {
        let ghost held = texts(rest@);
        rest.push(parts[index].clone());
        assert(texts(rest@) =~= held.push(whole[index as int]));
        index += 1;
    }
    assert(texts(rest@) =~= whole.skip(base@.len() as int));
    replace_backslashes(join(&rest, "/").as_str())
}

pub fn compare_paths_by_component(left: &str, right: &str) -> (relation: Relation)
    ensures
        relation == path_relation(left@, right@),
{
    let left_parts = split_components(left);
    let right_parts = split_components(right);
    compare_texts(&left_parts, &right_parts)
}

/// The folder that holds what a path names.
pub open spec fn parent(path: Seq<char>) -> Seq<char> {
    (if absolute(path) {
        "/"@
    } else {
        ""@
    }) + joined(
        components(path).take(
            if components(path).len() > 0 {
                components(path).len() - 1
            } else {
                0
            },
        ),
        "/"@,
    )
}

pub fn parent_of(path: &str) -> (folder: String)
    ensures
        folder@ == parent(path@),
{
    let mut parts = split_components(path);
    let ghost whole = components(path@);
    assert(texts(parts@).len() == parts@.len());
    parts.pop();
    assert(texts(parts@) =~= whole.take(
        if whole.len() > 0 {
            whole.len() - 1
        } else {
            0
        },
    ));
    let mut folder = if is_absolute(path) {
        "/".to_owned()
    } else {
        "".to_owned()
    };
    folder.append(join(&parts, "/").as_str());
    folder
}

}
