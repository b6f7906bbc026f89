//! What the path of a file says of it.
use vstd::prelude::*;
use crate::discover::{
    cargo_category, is_generated, lists_path, output_name, path_category, path_language, selected,
    skipped_name, test_count, test_target, test_target_path, tool_output, with_paths, CargoTarget,
    DiscoveredFile, LanguageFilter,
};
use crate::javascript::{path_mode, typed, with_markup};
use crate::model::{Category, Language};
use crate::paths::{components, components_from, extension, file_name, last_dot, piece_end};
use crate::sums::{total, total_push};
use crate::text::{begins, ends, holds, joined, joined_upto, texts};

verus! {

/// Whether a text can be the name of a file or a directory.
pub open spec fn plain_name(name: Seq<char>) -> bool {
    name.len() > 0 && !name.contains('/') && name != "."@ && name != ".."@
}

/// The path of what has a name in a directory.
pub open spec fn within(directory: Seq<char>, name: Seq<char>) -> Seq<char> {
    directory + "/"@ + name
}

proof fn lemma_piece_runs(path: Seq<char>, start: int, end: int)
    requires
        0 <= start <= end <= path.len(),
        forall|index: int| start <= index < end ==> path[index] != '/',
        end == path.len() || path[end] == '/',
    ensures
        piece_end(path, start) == end,
    decreases end - start,
{
    if start < end {
        lemma_piece_runs(path, start + 1, end);
    }
}

proof fn lemma_single(path: Seq<char>, start: int)
    requires
        0 <= start < path.len(),
        plain_name(path.skip(start)),
    ensures
        components_from(path, start) == seq![path.skip(start)],
{
    let name = path.skip(start);
    assert forall|index: int| start <= index < path.len() implies path[index] != '/' by {
        assert(name[index - start] != '/');
    }
    lemma_piece_runs(path, start, path.len() as int);
    assert(path.subrange(start, path.len() as int) =~= name);
    assert(components_from(path, start) =~= seq![name]);
}

proof fn lemma_same_piece(directory: Seq<char>, name: Seq<char>, start: int)
    requires
        0 <= start <= directory.len(),
    ensures
        piece_end(within(directory, name), start) == piece_end(directory, start),
        start <= piece_end(directory, start) <= directory.len(),
    decreases directory.len() - start,
{
    reveal_strlit("/");
    let path = within(directory, name);
    if start < directory.len() {
        assert(path[start] == directory[start]);
        if directory[start] != '/' {
            lemma_same_piece(directory, name, start + 1);
        }
    } else {
        assert(path[start] == '/');
    }
}

proof fn lemma_stands_last(directory: Seq<char>, name: Seq<char>, start: int)
    requires
        0 <= start <= directory.len(),
        plain_name(name),
    ensures
        components_from(within(directory, name), start) == components_from(directory, start).push(
            name,
        ),
    decreases directory.len() - start,
{
    reveal_strlit("/");
    let path = within(directory, name);
    lemma_same_piece(directory, name, start);
    let end = piece_end(directory, start);
    assert(path.subrange(start, end) =~= directory.subrange(start, end));
    if end < directory.len() {
        lemma_stands_last(directory, name, end + 1);
    } else {
        assert(path.skip(end + 1) =~= name);
        lemma_single(path, end + 1);
    }
    assert(components_from(path, start) =~= components_from(directory, start).push(name));
}

/// The name of a file is the last component of its path.
pub proof fn names_stand_last(directory: Seq<char>, name: Seq<char>)
    requires
        plain_name(name),
    ensures
        components(within(directory, name)) == components(directory).push(name),
        file_name(within(directory, name)) == Some(name),
        components(name) == seq![name],
        file_name(name) == Some(name),
{
    lemma_stands_last(directory, name, 0);
    assert(name.skip(0) =~= name);
    lemma_single(name, 0);
}

proof fn lemma_joined_parts(parts: Seq<Seq<char>>, count: nat)
    requires
        0 < count <= parts.len(),
        forall|index: int| 0 <= index < parts.len() ==> plain_name(#[trigger] parts[index]),
    ensures
        components(joined_upto(parts, "/"@, count)) == parts.take(count as int),
    decreases count,
{
    if count == 1 {
        names_stand_last(Seq::empty(), parts[0]);
        assert(parts.take(1) =~= seq![parts[0]]);
    } else {
        lemma_joined_parts(parts, (count - 1) as nat);
        names_stand_last(joined_upto(parts, "/"@, (count - 1) as nat), parts[count - 1]);
        assert(parts.take(count as int) =~= parts.take(count - 1).push(parts[count - 1]));
    }
}

/// Names joined by `/` are the components of the path that they make.
pub proof fn components_undo_joining(parts: Seq<Seq<char>>)
    requires
        parts.len() > 0,
        forall|index: int| 0 <= index < parts.len() ==> plain_name(#[trigger] parts[index]),
    ensures
        components(joined(parts, "/"@)) == parts,
{
    lemma_joined_parts(parts, parts.len());
    assert(parts.take(parts.len() as int) =~= parts);
}

proof fn lemma_last_dot(name: Seq<char>, dot: int, end: int)
    requires
        0 <= dot < end <= name.len(),
        name[dot] == '.',
        forall|index: int| dot < index < name.len() ==> name[index] != '.',
    ensures
        last_dot(name, end) == Some(dot),
    decreases end,
{
    if dot < end - 1 {
        lemma_last_dot(name, dot, end - 1);
    }
}

proof fn lemma_extension(directory: Seq<char>, stem: Seq<char>, end: Seq<char>)
    requires
        stem.len() > 0,
        end.len() > 0,
        !stem.contains('/'),
        !end.contains('/'),
        !end.contains('.'),
    ensures
        plain_name(stem + "."@ + end),
        extension(within(directory, stem + "."@ + end)) == Some(end),
{
    reveal_strlit(".");
    reveal_strlit("..");
    let name = stem + "."@ + end;
    let dot = stem.len() as int;
    assert(name[dot] == '.');
    assert forall|index: int| 0 <= index < name.len() implies name[index] != '/' by {
        if index < dot {
            assert(name[index] == stem[index]);
        } else if index > dot {
            assert(name[index] == end[index - dot - 1]);
        }
    }
    assert forall|index: int| dot < index < name.len() implies name[index] != '.' by {
        assert(name[index] == end[index - dot - 1]);
    }
    names_stand_last(directory, name);
    lemma_last_dot(name, dot, name.len() as int);
    assert(name.skip(dot + 1) =~= end);
}

proof fn lemma_endings_differ()
    ensures
        "rs"@ != "py"@,
        "rs"@ != "js"@,
        "rs"@ != "jsx"@,
        "rs"@ != "ts"@,
        "rs"@ != "tsx"@,
        "py"@ != "js"@,
        "py"@ != "jsx"@,
        "py"@ != "ts"@,
        "py"@ != "tsx"@,
        "js"@ != "ts"@,
        "js"@ != "tsx"@,
        "jsx"@ != "ts"@,
        "jsx"@ != "tsx"@,
{
    reveal_strlit("rs");
    reveal_strlit("py");
    reveal_strlit("js");
    reveal_strlit("jsx");
    reveal_strlit("ts");
    reveal_strlit("tsx");
    assert("rs"@[0] == 'r' && "py"@[0] == 'p' && "js"@[0] == 'j');
    assert("jsx"@[0] == 'j' && "ts"@[0] == 't' && "tsx"@[0] == 't');
}

/// The language of a file is told by what stands behind the last dot of its name,
/// wherever the file is.
pub proof fn endings_tell_languages(directory: Seq<char>, stem: Seq<char>, end: Seq<char>)
    requires
        stem.len() > 0,
        end.len() > 0,
        !stem.contains('/'),
        !end.contains('/'),
        !end.contains('.'),
    ensures
        ({
            let language = path_language(within(directory, stem + "."@ + end));
            &&& language == Some(Language::Rust) <==> end == "rs"@
            &&& language == Some(Language::Python) <==> end == "py"@
            &&& language == Some(Language::JavaScript) <==> end == "js"@ || end == "jsx"@
            &&& language == Some(Language::TypeScript) <==> end == "ts"@ || end == "tsx"@
        }),
{
    lemma_extension(directory, stem, end);
    lemma_endings_differ();
}

/// A Python file is a test where a directory above it, or it, is named `tests`,
/// where it is named `conftest.py`, where its name starts with `test_` and ends with
/// `.py`, or where it ends with `_test.py`; a JavaScript or TypeScript file where a
/// directory above it is named `tests` or `__tests__`, or where its name holds
/// `.test.` or `.spec.`. A Rust file is no test by its path alone.
pub proof fn names_tell_tests(directory: Seq<char>, name: Seq<char>)
    requires
        plain_name(name),
    ensures
        ({
            let path = within(directory, name);
            let among_tests = components(directory).contains("tests"@) || name == "tests"@;
            let among_suites = components(directory).contains("__tests__"@) || name
                == "__tests__"@;
            &&& path_category(path, Language::Rust) == Category::Production
            &&& path_category(path, Language::Python) == Category::Test <==> {
                ||| among_tests
                ||| name == "conftest.py"@
                ||| exists|middle: Seq<char>| name == #[trigger] ("test_"@ + middle + ".py"@)
                ||| exists|stem: Seq<char>| name == #[trigger] (stem + "_test.py"@)
            }
            &&& path_category(path, Language::JavaScript) == Category::Test <==> {
                ||| among_tests
                ||| among_suites
                ||| exists|before: Seq<char>, after: Seq<char>|
                    name == #[trigger] (before + ".test."@ + after)
                ||| exists|before: Seq<char>, after: Seq<char>|
                    name == #[trigger] (before + ".spec."@ + after)
            }
            &&& path_category(path, Language::TypeScript) == path_category(
                path,
                Language::JavaScript,
            )
        }),
{
    let path = within(directory, name);
    names_stand_last(directory, name);
    lemma_pushed(components(directory), name, "tests"@);
    lemma_pushed(components(directory), name, "__tests__"@);
    lemma_enclosed(name);
    lemma_ended(name, "_test.py"@);
    lemma_held(name, ".test."@);
    lemma_held(name, ".spec."@);
}

proof fn lemma_pushed(parts: Seq<Seq<char>>, last: Seq<char>, name: Seq<char>)
    ensures
        parts.push(last).contains(name) <==> parts.contains(name) || last == name,
{
    let all = parts.push(last);
    if parts.contains(name) {
        let at = choose|at: int| 0 <= at < parts.len() && parts[at] == name;
        assert(all[at] == name);
    }
    if last == name {
        assert(all[parts.len() as int] == name);
    }
}

proof fn lemma_ended(name: Seq<char>, end: Seq<char>)
    ensures
        ends(name, end) <==> exists|stem: Seq<char>| name == #[trigger] (stem + end),
{
    if ends(name, end) {
        let stem = name.take(name.len() - end.len());
        assert(name =~= stem + end);
    }
    if exists|stem: Seq<char>| name == #[trigger] (stem + end) {
        let stem = choose|stem: Seq<char>| name == #[trigger] (stem + end);
        assert(name.skip(name.len() - end.len()) =~= end);
    }
}

proof fn lemma_held(name: Seq<char>, part: Seq<char>)
    ensures
        holds(name, part) <==> exists|before: Seq<char>, after: Seq<char>|
            name == #[trigger] (before + part + after),
{
    if holds(name, part) {
        let start = choose|start: int|
            0 <= start <= name.len() - part.len() && #[trigger] name.subrange(
                start,
                start + part.len(),
            ) == part;
        let before = name.take(start);
        let after = name.skip(start + part.len());
        assert(name =~= before + name.subrange(start, start + part.len()) + after);
    }
    if exists|before: Seq<char>, after: Seq<char>| name == #[trigger] (before + part + after) {
        let (before, after) = choose|before: Seq<char>, after: Seq<char>|
            name == #[trigger] (before + part + after);
        let start = before.len() as int;
        assert(name.subrange(start, start + part.len()) =~= part);
    }
}

proof fn lemma_enclosed(name: Seq<char>)
    ensures
        begins(name, "test_"@) && ends(name, ".py"@) <==> exists|middle: Seq<char>|
            name == #[trigger] ("test_"@ + middle + ".py"@),
{
    reveal_strlit("test_");
    reveal_strlit(".py");
    let front = "test_"@;
    let back = ".py"@;
    if begins(name, front) && ends(name, back) {
        let first = name.len() - back.len();
        assert(name.skip(first)[0] == '.');
        assert(name[first] == '.');
        if first < 5 {
            assert(name.take(5)[first] == front[first]);
        }
        let middle = name.subrange(5, first);
        assert(name =~= name.take(5) + middle + name.skip(first));
        assert(name == front + middle + back);
    }
    if exists|middle: Seq<char>| name == #[trigger] (front + middle + back) {
        let middle = choose|middle: Seq<char>| name == #[trigger] (front + middle + back);
        assert(name.take(5) =~= front);
        assert(name.skip(name.len() - 3) =~= back);
    }
}

/// A script is generated where its name ends with `.d.ts` or holds `.min.`,
/// `.bundle.` or `.generated.`; no file of another language is.
pub proof fn names_tell_generated_scripts(directory: Seq<char>, name: Seq<char>)
    requires
        plain_name(name),
    ensures
        ({
            let path = within(directory, name);
            is_generated(path) <==> {
                &&& path_language(path) == Some(Language::JavaScript) || path_language(path)
                    == Some(Language::TypeScript)
                &&& {
                    ||| exists|stem: Seq<char>| name == #[trigger] (stem + ".d.ts"@)
                    ||| exists|before: Seq<char>, after: Seq<char>|
                        name == #[trigger] (before + ".min."@ + after)
                    ||| exists|before: Seq<char>, after: Seq<char>|
                        name == #[trigger] (before + ".bundle."@ + after)
                    ||| exists|before: Seq<char>, after: Seq<char>|
                        name == #[trigger] (before + ".generated."@ + after)
                }
            }
        }),
{
    names_stand_last(directory, name);
    lemma_ended(name, ".d.ts"@);
    lemma_held(name, ".min."@);
    lemma_held(name, ".bundle."@);
    lemma_held(name, ".generated."@);
}

/// A script is the output of a tool where a directory below the root of the walk, and
/// above the script, is named `dist`, `build`, `coverage` or `.expo`.
pub proof fn directories_tell_tool_output(root: Seq<char>, directory: Seq<char>, name: Seq<char>)
    requires
        plain_name(name),
        components(root).len() <= components(directory).len(),
    ensures
        ({
            let path = within(directory, name);
            let below = components(directory).skip(components(root).len() as int);
            tool_output(root, path) <==> {
                &&& path_language(path) == Some(Language::JavaScript) || path_language(path)
                    == Some(Language::TypeScript)
                &&& below.contains("dist"@) || below.contains("build"@) || below.contains(
                    "coverage"@,
                ) || below.contains(".expo"@)
            }
        }),
{
    let path = within(directory, name);
    names_stand_last(directory, name);
    let above = components(root).len() as int;
    let parts = components(path);
    let below = components(directory).skip(above);
    assert forall|index: int| above <= index < parts.len() - 1 implies below[index - above]
        == #[trigger] parts[index] by {}
    assert forall|index: int| 0 <= index < below.len() implies parts[index + above]
        == #[trigger] below[index] by {}
    if tool_output(root, path) {
        let index = choose|index: int|
            above <= index < parts.len() - 1 && output_name(
                #[trigger] parts[index],
            );
        assert(below[index - above] == parts[index]);
    }
}

/// The directories that a walk leaves out are named so.
pub proof fn names_tell_skipped_directories(directory: Seq<char>, name: Seq<char>)
    requires
        plain_name(name),
    ensures
        file_name(within(directory, name)) == Some(name),
        skipped_name(name) <==> {
            ||| name == ".git"@ || name == ".cargo"@ || name == ".tox"@ || name == ".nox"@
            ||| name == ".venv"@ || name == "venv"@ || name == "__pycache__"@
            ||| name == "target"@ || name == "vendor"@ || name == "node_modules"@
        },
{
    names_stand_last(directory, name);
}

/// A filter lets every language pass, or the one that is written as it is.
pub proof fn filters_pass_what_they_name(filter: LanguageFilter, language: Language)
    ensures
        filter.passes(language) <==> filter == LanguageFilter::All || filter.serialized_text()
            == language.serialized_text(),
{
    reveal_strlit("all");
    reveal_strlit("rust");
    reveal_strlit("python");
    reveal_strlit("javascript");
    reveal_strlit("typescript");
    assert("all"@[0] == 'a' && "rust"@[0] == 'r' && "python"@[0] == 'p');
    assert("javascript"@[0] == 'j' && "typescript"@[0] == 't');
}

proof fn lemma_walk(root: Seq<char>, paths: Seq<String>, filter: LanguageFilter, count: nat)
    requires
        count <= paths.len(),
    ensures
        ({
            let files = with_paths(Seq::empty(), root, paths, filter, count);
            &&& forall|index: int|
                0 <= index < count && selected(root, (#[trigger] paths[index])@, filter)
                    ==> lists_path(files, paths[index]@)
            &&& forall|place: int|
                0 <= place < files.len() ==> found_in(
                    paths.take(count as int),
                    #[trigger] files[place],
                    root,
                    filter,
                )
            &&& forall|left: int, right: int|
                0 <= left < right < files.len() ==> #[trigger] files[left].path@
                    != #[trigger] files[right].path@
        }),
    decreases count,
{
    let files = with_paths(Seq::empty(), root, paths, filter, count);
    if count > 0 {
        lemma_walk(root, paths, filter, (count - 1) as nat);
        let earlier = with_paths(Seq::empty(), root, paths, filter, (count - 1) as nat);
        assert forall|index: int|
            0 <= index < count && selected(root, (#[trigger] paths[index])@, filter) implies lists_path(
            files,
            paths[index]@,
        ) by {
            if index < count - 1 || lists_path(earlier, paths[index]@) {
                assert(lists_path(earlier, paths[index]@));
                let at = choose|at: int|
                    0 <= at < earlier.len() && (#[trigger] earlier[at]).path@ == paths[index]@;
                assert(files[at].path@ == paths[index]@);
            } else {
                assert(files[earlier.len() as int].path@ == paths[index]@);
            }
        }
        assert forall|place: int| 0 <= place < files.len() implies found_in(
            paths.take(count as int),
            #[trigger] files[place],
            root,
            filter,
        ) by {
            let fewer = paths.take(count - 1);
            let more = paths.take(count as int);
            if place < earlier.len() {
                assert(found_in(fewer, earlier[place], root, filter));
                let at = choose|at: int|
                    0 <= at < fewer.len() && (#[trigger] fewer[at])@ == earlier[place].path@;
                assert(more[at]@ == files[place].path@);
            } else {
                assert(more[count - 1]@ == files[place].path@);
            }
        }
    }
}

/// Whether a file is one of the paths, with the language and the category that its
/// path tells, and of a language that the filter lets pass.
pub open spec fn found_in(
    paths: Seq<String>,
    file: DiscoveredFile,
    root: Seq<char>,
    filter: LanguageFilter,
) -> bool {
    &&& exists|at: int| 0 <= at < paths.len() && (#[trigger] paths[at])@ == file.path@
    &&& path_language(file.path@) == Some(file.language)
    &&& path_category(file.path@, file.language) == file.category
    &&& filter.passes(file.language)
    &&& !is_generated(file.path@)
    &&& !tool_output(root, file.path@)
}

/// A walk lists each path of a wanted language once, unless it is generated or the
/// output of a tool, and nothing else.
pub proof fn walks_list_source_files(
    root: Seq<char>,
    paths: Seq<String>,
    filter: LanguageFilter,
)
    ensures
        ({
            let files = with_paths(Seq::empty(), root, paths, filter, paths.len());
            &&& forall|index: int|
                0 <= index < paths.len() && path_language((#[trigger] paths[index])@) is Some
                    && filter.passes(path_language(paths[index]@)->Some_0) && !is_generated(
                    paths[index]@,
                ) && !tool_output(root, paths[index]@) ==> lists_path(files, paths[index]@)
            &&& forall|place: int|
                0 <= place < files.len() ==> found_in(
                    paths,
                    #[trigger] files[place],
                    root,
                    filter,
                )
            &&& forall|left: int, right: int|
                0 <= left < right < files.len() ==> #[trigger] files[left].path@
                    != #[trigger] files[right].path@
        }),
{
    lemma_walk(root, paths, filter, paths.len());
    assert(paths.take(paths.len() as int) =~= paths);
}

/// The test files of a discovery are those whose category is test.
pub proof fn test_files_are_counted(files: Seq<DiscoveredFile>, count: nat)
    requires
        count <= files.len(),
    ensures
        test_count(files, count) == total(
            files.take(count as int).map_values(
                |file: DiscoveredFile|
                    match file.category {
                        Category::Test => 1nat,
                        Category::Production => 0nat,
                    },
            ),
        ),
    decreases count,
{
    let counted = |file: DiscoveredFile|
        match file.category {
            Category::Test => 1nat,
            Category::Production => 0nat,
        };
    if count == 0 {
        assert(files.take(0).map_values(counted) =~= Seq::<nat>::empty());
    } else {
        test_files_are_counted(files, (count - 1) as nat);
        let fewer = files.take(count - 1).map_values(counted);
        assert(files.take(count as int).map_values(counted) =~= fewer.push(
            counted(files[count - 1]),
        ));
        total_push(fewer, counted(files[count - 1]));
    }
}

/// Scripts have a grammar just where their language is JavaScript or TypeScript:
/// TypeScript's where the name ends with `.ts` or `.tsx`, and markup where it ends with
/// `.jsx` or `.tsx`.
pub proof fn endings_tell_grammars(directory: Seq<char>, stem: Seq<char>, end: Seq<char>)
    requires
        stem.len() > 0,
        end.len() > 0,
        !stem.contains('/'),
        !end.contains('/'),
        !end.contains('.'),
    ensures
        ({
            let path = within(directory, stem + "."@ + end);
            let language = path_language(path);
            let mode = path_mode(path);
            &&& mode is Some <==> language == Some(Language::JavaScript) || language == Some(
                Language::TypeScript,
            )
            &&& mode matches Some(found) ==> {
                &&& typed(found) <==> end == "ts"@ || end == "tsx"@
                &&& typed(found) <==> language == Some(Language::TypeScript)
                &&& with_markup(found) <==> end == "jsx"@ || end == "tsx"@
            }
        }),
{
    lemma_extension(directory, stem, end);
    lemma_endings_differ();
    reveal_strlit("js");
    reveal_strlit("jsx");
    reveal_strlit("ts");
    reveal_strlit("tsx");
    assert("js"@.len() == 2 && "jsx"@.len() == 3 && "ts"@.len() == 2 && "tsx"@.len() == 3);
}

/// A Rust file of a Cargo package is a test where it lies in `tests` or `benches`, or
/// where it is the source of a target of kind `test` or `bench`; files of other
/// languages stay what they are.
pub proof fn cargo_tells_rust_tests(file: DiscoveredFile, targets: Seq<CargoTarget>)
    ensures
        ({
            let told = cargo_category(file, targets);
            &&& told.path == file.path
            &&& told.language == file.language
            &&& file.language != Language::Rust ==> told.category == file.category
            &&& file.language == Language::Rust ==> (told.category == Category::Test <==> {
                ||| components(file.path@).contains("tests"@)
                ||| components(file.path@).contains("benches"@)
                ||| exists|index: int|
                    0 <= index < targets.len() && (#[trigger] targets[index]).path@ == file.path@
                        && (texts(targets[index].kinds@).contains("test"@) || texts(
                        targets[index].kinds@,
                    ).contains("bench"@))
            })
        }),
{
    assert forall|index: int| 0 <= index < targets.len() implies test_target(
        #[trigger] targets[index],
    ) == (texts(targets[index].kinds@).contains("test"@) || texts(
        targets[index].kinds@,
    ).contains("bench"@)) by {}
    if test_target_path(targets, file.path@) {
        let index = choose|index: int|
            0 <= index < targets.len() && (#[trigger] targets[index]).path@ == file.path@
                && test_target(targets[index]);
        assert(targets[index].path@ == file.path@);
    }
}

}
