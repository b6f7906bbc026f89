//! Which source files are analyzed, and as what.
//!
//! Walking directories and asking Cargo for its targets is left to the caller;
//! the rules that select and classify what was found are here.
use vstd::prelude::*;
use vstd::string::StringExecFns;
use crate::model::{Category, Language};
use crate::order::{sorted, stable_sort, Relation};
use crate::paths::{
    compare_paths_by_component, components, extension, extension_of, file_name, name_of, parent,
    parent_of, path_relation, split_components,
};
use crate::text::{
    begins, contains_text, ends, ends_with, holds, holds_text, same_text, starts_with, texts,
};

verus! {

/// A source file selected for analysis. Cargo target context marks integration
/// tests and benchmarks before syntax-level `cfg(test)` classification runs.
#[derive(Debug)]
pub struct DiscoveredFile {
    pub path: String,
    pub language: Language,
    pub category: Category,
}

impl Clone for DiscoveredFile {
    fn clone(&self) -> (copy: Self)
        ensures
            copy == *self,
    {
        DiscoveredFile {
            path: self.path.clone(),
            language: self.language,
            category: self.category,
        }
    }
}

#[derive(Clone, Debug)]
pub struct Discovery {
    pub files: Vec<DiscoveredFile>,
    pub test_files: usize,
    pub language_filter: LanguageFilter,
    pub explicit_file: bool,
}

#[derive(Clone, Debug, PartialEq, Eq)]
pub struct DiscoveryError {
    pub message: String,
}

/// Languages that can be selected by the command line. Explicit source files
/// always win over this filter, so `kompass --language rust script.py` still
/// analyzes the requested file.
#[derive(Clone, Copy, Debug, Default, PartialEq, Eq, Structural)]
pub enum LanguageFilter {
    #[default]
    All,
    Rust,
    Python,
    JavaScript,
    TypeScript,
}

impl LanguageFilter {
    /// Whether files of a language pass.
    pub open spec fn passes(self, language: Language) -> bool {
        match self {
            LanguageFilter::All => true,
            LanguageFilter::Rust => language == Language::Rust,
            LanguageFilter::Python => language == Language::Python,
            LanguageFilter::JavaScript => language == Language::JavaScript,
            LanguageFilter::TypeScript => language == Language::TypeScript,
        }
    }

    pub fn includes(self, language: Language) -> (answer: bool)
        ensures
            answer == self.passes(language),
    {
        match self {
            LanguageFilter::All => true,
            LanguageFilter::Rust => language == Language::Rust,
            LanguageFilter::Python => language == Language::Python,
            LanguageFilter::JavaScript => language == Language::JavaScript,
            LanguageFilter::TypeScript => language == Language::TypeScript,
        }
    }

    pub open spec fn serialized_text(self) -> Seq<char> {
        match self {
            LanguageFilter::All => "all"@,
            LanguageFilter::Rust => "rust"@,
            LanguageFilter::Python => "python"@,
            LanguageFilter::JavaScript => "javascript"@,
            LanguageFilter::TypeScript => "typescript"@,
        }
    }

    pub fn serialized(self) -> (text: &'static str)
        ensures
            text@ == self.serialized_text(),
    {
        match self {
            LanguageFilter::All => "all",
            LanguageFilter::Rust => "rust",
            LanguageFilter::Python => "python",
            LanguageFilter::JavaScript => "javascript",
            LanguageFilter::TypeScript => "typescript",
        }
    }
}

/// Whether one of the components of a path is a name.
pub open spec fn has_component(path: Seq<char>, name: Seq<char>) -> bool {
    components(path).contains(name)
}

fn passes_through(path: &str, name: &str) -> (answer: bool)
    ensures
        answer == has_component(path@, name@),
{
    holds_text(&split_components(path), name)
}

/// Whether a directory of this name holds build output or dependencies.
pub open spec fn skipped_name(name: Seq<char>) -> bool {
    ||| name == ".git"@
    ||| name == "target"@
    ||| name == ".cargo"@
    ||| name == "vendor"@
    ||| name == "node_modules"@
    ||| name == ".venv"@
    ||| name == "venv"@
    ||| name == "__pycache__"@
    ||| name == ".tox"@
    ||| name == ".nox"@
}

/// Whether a directory is left out: a virtual environment, which holds
/// `pyvenv.cfg`, or a tree of build output or dependencies.
pub fn should_skip_directory(path: &str, is_virtual_environment: bool) -> (answer: bool)
    ensures
        answer == (is_virtual_environment || match file_name(path@) {
            Some(name) => skipped_name(name),
            None => false,
        }),
{
    if is_virtual_environment {
        return true;
    }
    match name_of(path) {
        Some(found) => {
            let name = found.as_str();
            same_text(name, ".git") || same_text(name, "target") || same_text(name, ".cargo")
                || same_text(name, "vendor") || same_text(name, "node_modules") || same_text(
                name,
                ".venv",
            ) || same_text(name, "venv") || same_text(name, "__pycache__") || same_text(
                name,
                ".tox",
            ) || same_text(name, ".nox")
        },
        None => false,
    }
}

/// Whether the extension of a path is a text.
pub open spec fn has_extension(path: Seq<char>, wanted: Seq<char>) -> bool {
    extension(path) == Some(wanted)
}

fn is_extension(path: &str, wanted: &str) -> (answer: bool)
    ensures
        answer == has_extension(path@, wanted@),
{
    match extension_of(path) {
        Some(found) => same_text(found.as_str(), wanted),
        None => false,
    }
}

/// The language of a source file, by its extension.
pub open spec fn path_language(path: Seq<char>) -> Option<Language> {
    if has_extension(path, "rs"@) {
        Some(Language::Rust)
    } else if has_extension(path, "py"@) {
        Some(Language::Python)
    } else if has_extension(path, "js"@) || has_extension(path, "jsx"@) {
        Some(Language::JavaScript)
    } else if has_extension(path, "ts"@) || has_extension(path, "tsx"@) {
        Some(Language::TypeScript)
    } else {
        None
    }
}

pub fn language_for_path(path: &str) -> (language: Option<Language>)
    ensures
        language == path_language(path@),
{
    if is_extension(path, "rs") {
        Some(Language::Rust)
    } else if is_extension(path, "py") {
        Some(Language::Python)
    } else if is_extension(path, "js") || is_extension(path, "jsx") {
        Some(Language::JavaScript)
    } else if is_extension(path, "ts") || is_extension(path, "tsx") {
        Some(Language::TypeScript)
    } else {
        None
    }
}

/// Whether a language is JavaScript or TypeScript.
pub open spec fn of_script_family(language: Option<Language>) -> bool {
    language == Some(Language::JavaScript) || language == Some(Language::TypeScript)
}

/// Whether a directory of this name holds what JavaScript tools put out.
pub open spec fn output_name(name: Seq<char>) -> bool {
    ||| name == "dist"@
    ||| name == "build"@
    ||| name == "coverage"@
    ||| name == ".expo"@
}

/// Whether a JavaScript or TypeScript file lies, somewhere under the root of a
/// walk, in a directory that holds what JavaScript tools put out. Other languages
/// keep source in directories of these names.
pub open spec fn tool_output(root: Seq<char>, path: Seq<char>) -> bool {
    let parts = components(path);
    of_script_family(path_language(path)) && exists|index: int|
        components(root).len() <= index < parts.len() - 1 && output_name(#[trigger] parts[index])
}

pub fn is_tool_output(root: &str, path: &str) -> (answer: bool)
    ensures
        answer == tool_output(root@, path@),
{
    let of_family: bool = match language_for_path(path) {
        Some(language) => language.is_javascript_family(),
        None => false,
    };
    if !of_family {
        return false;
    }
    let above: usize = split_components(root).len();
    let parts = split_components(path);
    assert(texts(parts@).len() == parts@.len());
    let mut index: usize = above;
    while index < parts.len() && index < parts.len() - 1
        invariant
            of_script_family(path_language(path@)),
            above == components(root@).len(),
            texts(parts@) == components(path@),
            parts@.len() == components(path@).len(),
            above <= index,
            forall|earlier: int|
                above <= earlier < index && earlier < parts@.len() - 1 ==> !output_name(
                    #[trigger] components(path@)[earlier],
                ),
        decreases parts@.len() - index,
    {
        let name = parts[index].as_str();
        assert(name@ == components(path@)[index as int]);
        if same_text(name, "dist") || same_text(name, "build") || same_text(name, "coverage")
            || same_text(name, ".expo") {
            return true;
        }
        index += 1;
    }
    false
}

/// Whether a JavaScript or TypeScript file is generated: a declaration file, a
/// bundle, or minified or generated code.
pub open spec fn generated_name(name: Seq<char>) -> bool {
    ||| ends(name, ".d.ts"@)
    ||| holds(name, ".min."@)
    ||| holds(name, ".bundle."@)
    ||| holds(name, ".generated."@)
}

/// Whether a path found in a walk names generated code.
pub open spec fn is_generated(path: Seq<char>) -> bool {
    of_script_family(path_language(path)) && match file_name(path) {
        Some(name) => generated_name(name),
        None => false,
    }
}

pub fn is_generated_path(path: &str) -> (answer: bool)
    ensures
        answer == is_generated(path@),
{
    let of_family: bool = match language_for_path(path) {
        Some(language) => language.is_javascript_family(),
        None => false,
    };
    if !of_family {
        return false;
    }
    match name_of(path) {
        Some(found) => {
            let name = found.as_str();
            ends_with(name, ".d.ts") || contains_text(name, ".min.") || contains_text(
                name,
                ".bundle.",
            ) || contains_text(name, ".generated.")
        },
        None => false,
    }
}

/// Whether a path lies where Cargo keeps integration tests and benchmarks.
pub fn is_test_path(path: &str) -> (answer: bool)
    ensures
        answer == (has_component(path@, "tests"@) || has_component(path@, "benches"@)),
{
    passes_through(path, "tests") || passes_through(path, "benches")
}

/// Whether a path names a Python test by convention.
pub open spec fn python_test(path: Seq<char>) -> bool {
    match file_name(path) {
        Some(name) => has_component(path, "tests"@) || name == "conftest.py"@ || (begins(
            name,
            "test_"@,
        ) && ends(name, ".py"@)) || ends(name, "_test.py"@),
        None => false,
    }
}

pub fn is_python_test_path(path: &str) -> (answer: bool)
    ensures
        answer == python_test(path@),
{
    match name_of(path) {
        Some(found) => {
            let name = found.as_str();
            passes_through(path, "tests") || same_text(name, "conftest.py") || (starts_with(
                name,
                "test_",
            ) && ends_with(name, ".py")) || ends_with(name, "_test.py")
        },
        None => false,
    }
}

/// Whether a path names a JavaScript or TypeScript test by convention.
pub open spec fn javascript_test(path: Seq<char>) -> bool {
    match file_name(path) {
        Some(name) => has_component(path, "tests"@) || has_component(path, "__tests__"@) || holds(
            name,
            ".test."@,
        ) || holds(name, ".spec."@),
        None => false,
    }
}

pub fn is_javascript_test_path(path: &str) -> (answer: bool)
    ensures
        answer == javascript_test(path@),
{
    match name_of(path) {
        Some(found) => {
            let name = found.as_str();
            passes_through(path, "tests") || passes_through(path, "__tests__") || contains_text(
                name,
                ".test.",
            ) || contains_text(name, ".spec.")
        },
        None => false,
    }
}

/// The category of a file by its path alone.
pub open spec fn path_category(path: Seq<char>, language: Language) -> Category {
    let test = match language {
        Language::Rust => false,
        Language::Python => python_test(path),
        Language::JavaScript => javascript_test(path),
        Language::TypeScript => javascript_test(path),
    };
    if test {
        Category::Test
    } else {
        Category::Production
    }
}

pub fn category_for_path(path: &str, language: Language) -> (category: Category)
    ensures
        category == path_category(path@, language),
{
    let test: bool = match language {
        Language::Rust => false,
        Language::Python => is_python_test_path(path),
        Language::JavaScript => is_javascript_test_path(path),
        Language::TypeScript => is_javascript_test_path(path),
    };
    if test {
        Category::Test
    } else {
        Category::Production
    }
}

/// How many of the first `count` files are tests.
pub open spec fn test_count(files: Seq<DiscoveredFile>, count: nat) -> nat
    decreases count,
{
    if count == 0 {
        0
    } else {
        test_count(files, (count - 1) as nat) + if files[count - 1].category == Category::Test {
            1nat
        } else {
            0nat
        }
    }
}

fn count_tests(files: &Vec<DiscoveredFile>) -> (tests: usize)
    ensures
        tests == test_count(files@, files@.len()),
{
    let mut tests: usize = 0;
    let mut index: usize = 0;
    while index < files.len()
        invariant
            index <= files@.len(),
            tests <= index,
            tests == test_count(files@, index as nat),
        decreases files@.len() - index,
    {
        if files[index].category == Category::Test {
            tests += 1;
        }
        index += 1;
    }
    tests
}

/// Whether a file may stand before another: by path.
pub open spec fn file_precedes() -> spec_fn(DiscoveredFile, DiscoveredFile) -> bool {
    |left: DiscoveredFile, right: DiscoveredFile|
        path_relation(left.path@, right.path@) != Relation::After
}

fn file_in_order(left: &DiscoveredFile, right: &DiscoveredFile) -> (answer: bool)
    ensures
        answer == file_precedes()(*left, *right),
{
    compare_paths_by_component(left.path.as_str(), right.path.as_str()) != Relation::After
}

/// Whether one of the files has a path.
pub open spec fn lists_path(files: Seq<DiscoveredFile>, path: Seq<char>) -> bool {
    exists|index: int| 0 <= index < files.len() && (#[trigger] files[index]).path@ == path
}

fn is_listed(files: &Vec<DiscoveredFile>, path: &String) -> (answer: bool)
    ensures
        answer == lists_path(files@, path@),
{
    let mut index: usize = 0;
    while index < files.len()
        invariant
            index <= files@.len(),
            forall|earlier: int|
                0 <= earlier < index ==> (#[trigger] files@[earlier]).path@ != path@,
        decreases files@.len() - index,
    {
        if files[index].path == *path {
            return true;
        }
        index += 1;
    }
    false
}

/// A target that Cargo reports: its source file and its kinds.
#[derive(Debug)]
pub struct CargoTarget {
    pub path: String,
    pub kinds: Vec<String>,
}

/// Whether a target is a test or a benchmark.
pub open spec fn test_target(target: CargoTarget) -> bool {
    texts(target.kinds@).contains("test"@) || texts(target.kinds@).contains("bench"@)
}

/// Whether a test or benchmark target has a path.
pub open spec fn test_target_path(targets: Seq<CargoTarget>, path: Seq<char>) -> bool {
    exists|index: int|
        0 <= index < targets.len() && (#[trigger] targets[index]).path@ == path && test_target(
            targets[index],
        )
}

fn is_test_target_path(targets: &Vec<CargoTarget>, path: &str) -> (answer: bool)
    ensures
        answer == test_target_path(targets@, path@),
{
    let mut index: usize = 0;
    while index < targets.len()
        invariant
            index <= targets@.len(),
            forall|earlier: int|
                0 <= earlier < index ==> !((#[trigger] targets@[earlier]).path@ == path@
                    && test_target(targets@[earlier])),
        decreases targets@.len() - index,
    {
        if same_text(targets[index].path.as_str(), path) && (holds_text(
            &targets[index].kinds,
            "test",
        ) || holds_text(&targets[index].kinds, "bench")) {
            return true;
        }
        index += 1;
    }
    false
}

/// What a path that was found under a root stands for: nothing, where its language
/// is unknown or not wanted, or where it names generated code.
pub open spec fn selected(root: Seq<char>, path: Seq<char>, filter: LanguageFilter) -> bool {
    match path_language(path) {
        Some(language) => filter.passes(language) && !is_generated(path) && !tool_output(
            root,
            path,
        ),
        None => false,
    }
}

/// `files` with what the first `count` paths stand for, each path once.
pub open spec fn with_paths(
    files: Seq<DiscoveredFile>,
    root: Seq<char>,
    paths: Seq<String>,
    filter: LanguageFilter,
    count: nat,
) -> Seq<DiscoveredFile>
    decreases count,
{
    if count == 0 {
        files
    } else {
        let earlier = with_paths(files, root, paths, filter, (count - 1) as nat);
        let path = paths[count - 1];
        if selected(root, path@, filter) && !lists_path(earlier, path@) {
            earlier.push(
                DiscoveredFile {
                    path,
                    language: path_language(path@)->Some_0,
                    category: path_category(path@, path_language(path@)->Some_0),
                },
            )
        } else {
            earlier
        }
    }
}

fn push_paths(
    files: &mut Vec<DiscoveredFile>,
    root: &str,
    paths: &Vec<String>,
    filter: LanguageFilter,
)
    ensures
        final(files)@ == with_paths(old(files)@, root@, paths@, filter, paths@.len()),
{
    let mut index: usize = 0;
    while index < paths.len()
        invariant
            index <= paths@.len(),
            files@ == with_paths(old(files)@, root@, paths@, filter, index as nat),
        decreases paths@.len() - index,
    {
        let path = &paths[index];
        if let Some(language) = language_for_path(path.as_str()) {
            if filter.includes(language) && !is_generated_path(path.as_str()) && !is_tool_output(
                root,
                path.as_str(),
            ) && !is_listed(files, path) {
                let category = category_for_path(path.as_str(), language);
                files.push(DiscoveredFile { path: path.clone(), language, category });
            }
        }
        index += 1;
    }
}

/// Whether a discovery lists files in order and counts the tests among them.
pub open spec fn discovers(
    discovery: Discovery,
    files: Seq<DiscoveredFile>,
    filter: LanguageFilter,
    explicit: bool,
) -> bool {
    &&& discovery.files@ == sorted(files, file_precedes())
    &&& discovery.test_files == test_count(discovery.files@, discovery.files@.len())
    &&& discovery.language_filter == filter
    &&& discovery.explicit_file == explicit
}

fn finish(files: Vec<DiscoveredFile>, filter: LanguageFilter, explicit: bool) -> (discovery: Discovery)
    ensures
        discovers(discovery, files@, filter, explicit),
{
    let files = stable_sort(files, file_in_order, Ghost(file_precedes()));
    Discovery {
        test_files: count_tests(&files),
        files,
        language_filter: filter,
        explicit_file: explicit,
    }
}

/// No file at all, as where the requested directory is a dependency tree.
pub fn nothing_discovered(filter: LanguageFilter) -> (discovery: Discovery)
    ensures
        discovers(discovery, Seq::empty(), filter, false),
{
    finish(Vec::new(), filter, false)
}

/// What an explicit file is analyzed as. The file wins over the filter, and
/// over what its name says of generated code.
pub fn discover_file(path: &str, shown: &str, filter: LanguageFilter) -> (result: Result<
    Discovery,
    DiscoveryError,
>)
    ensures
        result is Ok <==> path_language(path@) is Some,
        result matches Ok(discovery) ==> {
            &&& discovery.files@.len() == 1
            &&& discovery.files@[0].path@ == path@
            &&& Some(discovery.files@[0].language) == path_language(path@)
            &&& discovery.files@[0].category == path_category(
                path@,
                discovery.files@[0].language,
            )
            &&& discovery.test_files == test_count(discovery.files@, 1)
            &&& discovery.language_filter == filter
            &&& discovery.explicit_file
        },
        result matches Err(error) ==> error.message@ == "'"@ + shown@
            + "' is not a Rust, Python, JavaScript, or TypeScript source file"@,
{
    let language = match language_for_path(path) {
        Some(language) => language,
        None => {
            let mut message = "'".to_owned();
            message.append(shown);
            message.append("' is not a Rust, Python, JavaScript, or TypeScript source file");
            return Err(DiscoveryError { message });
        },
    };
    let category = category_for_path(path, language);
    let mut files: Vec<DiscoveredFile> = Vec::new();
    files.push(DiscoveredFile { path: path.to_owned(), language, category });
    Ok(
        Discovery {
            test_files: count_tests(&files),
            files,
            language_filter: filter,
            explicit_file: true,
        },
    )
}

/// What a walk of a directory found.
pub fn discover_filesystem(root: &str, paths: &Vec<String>, filter: LanguageFilter) -> (discovery:
    Discovery)
    ensures
        discovers(
            discovery,
            with_paths(Seq::empty(), root@, paths@, filter, paths@.len()),
            filter,
            false,
        ),
{
    let mut files: Vec<DiscoveredFile> = Vec::new();
    push_paths(&mut files, root, paths, filter);
    finish(files, filter, false)
}

/// The Rust files among the first `count` targets, each path once.
pub open spec fn target_files(
    targets: Seq<CargoTarget>,
    filter: LanguageFilter,
    count: nat,
) -> Seq<DiscoveredFile>
    decreases count,
{
    if count == 0 {
        Seq::empty()
    } else {
        let earlier = target_files(targets, filter, (count - 1) as nat);
        let path = targets[count - 1].path;
        if filter.passes(Language::Rust) && path_language(path@) == Some(Language::Rust)
            && !lists_path(earlier, path@) {
            earlier.push(
                DiscoveredFile { path, language: Language::Rust, category: Category::Production },
            )
        } else {
            earlier
        }
    }
}

/// A Rust file with the category that Cargo's targets and layout give it.
pub open spec fn cargo_category(
    file: DiscoveredFile,
    targets: Seq<CargoTarget>,
) -> DiscoveredFile {
    DiscoveredFile {
        category: if file.language != Language::Rust {
            file.category
        } else if has_component(file.path@, "tests"@) || has_component(file.path@, "benches"@)
            || test_target_path(targets, file.path@) {
            Category::Test
        } else {
            Category::Production
        },
        ..file
    }
}

/// The files of a Cargo package or workspace: its targets, wherever they are,
/// the Rust files of the packages, and what else lies under the root.
pub open spec fn cargo_files(
    targets: Seq<CargoTarget>,
    root: Seq<char>,
    package_paths: Seq<String>,
    root_paths: Seq<String>,
    filter: LanguageFilter,
) -> Seq<DiscoveredFile> {
    let rust = with_paths(
        target_files(targets, filter, targets.len()),
        root,
        package_paths,
        LanguageFilter::Rust,
        package_paths.len(),
    );
    let python = if filter.passes(Language::Python) {
        with_paths(rust, root, root_paths, LanguageFilter::Python, root_paths.len())
    } else {
        rust
    };
    let javascript = if filter.passes(Language::JavaScript) {
        with_paths(python, root, root_paths, LanguageFilter::JavaScript, root_paths.len())
    } else {
        python
    };
    let all = if filter.passes(Language::TypeScript) {
        with_paths(javascript, root, root_paths, LanguageFilter::TypeScript, root_paths.len())
    } else {
        javascript
    };
    all.map_values(|file: DiscoveredFile| cargo_category(file, targets))
}

fn collect_targets(targets: &Vec<CargoTarget>, filter: LanguageFilter) -> (files: Vec<
    DiscoveredFile,
>)
    ensures
        files@ == target_files(targets@, filter, targets@.len()),
{
    let mut files: Vec<DiscoveredFile> = Vec::new();
    let mut index: usize = 0;
    while index < targets.len()
        invariant
            index <= targets@.len(),
            files@ == target_files(targets@, filter, index as nat),
        decreases targets@.len() - index,
    {
        let path = &targets[index].path;
        let is_rust: bool = match language_for_path(path.as_str()) {
            Some(language) => language == Language::Rust,
            None => false,
        };
        if filter.includes(Language::Rust) && is_rust && !is_listed(&files, path) {
            files.push(
                DiscoveredFile {
                    path: path.clone(),
                    language: Language::Rust,
                    category: Category::Production,
                },
            );
        }
        index += 1;
    }
    files
}

/// The discovery of a Cargo package or workspace. Cargo's target paths are
/// authoritative, including custom targets deliberately kept outside a package
/// root or ignored by a repository rule. Other languages commonly live beside,
/// or outside, a Rust package, so they are taken from the requested root.
pub fn discover_cargo_targets(
    targets: &Vec<CargoTarget>,
    root: &str,
    package_paths: &Vec<String>,
    root_paths: &Vec<String>,
    filter: LanguageFilter,
) -> (discovery: Discovery)
    ensures
        discovers(
            discovery,
            cargo_files(targets@, root@, package_paths@, root_paths@, filter),
            filter,
            false,
        ),
{
    let mut found = collect_targets(targets, filter);
    push_paths(&mut found, root, package_paths, LanguageFilter::Rust);
    if filter.includes(Language::Python) {
        push_paths(&mut found, root, root_paths, LanguageFilter::Python);
    }
    if filter.includes(Language::JavaScript) {
        push_paths(&mut found, root, root_paths, LanguageFilter::JavaScript);
    }
    if filter.includes(Language::TypeScript) {
        push_paths(&mut found, root, root_paths, LanguageFilter::TypeScript);
    }
    let ghost all = found@;
    let mut files: Vec<DiscoveredFile> = Vec::new();
    let mut index: usize = 0;
    while index < found.len()
        invariant
            index <= found@.len(),
            all == found@,
            files@ =~= all.map_values(|file: DiscoveredFile| cargo_category(file, targets@)).take(
                index as int,
            ),
        decreases found@.len() - index,
    {
        let file = &found[index];
        let category = if file.language != Language::Rust {
            file.category
        } else if is_test_path(file.path.as_str()) || is_test_target_path(
            targets,
            file.path.as_str(),
        ) {
            Category::Test
        } else {
            Category::Production
        };
        files.push(
            DiscoveredFile { path: file.path.clone(), language: file.language, category },
        );
        index += 1;
    }
    assert(files@ =~= cargo_files(targets@, root@, package_paths@, root_paths@, filter));
    finish(files, filter, false)
}

/// The folders of the first `count` manifests, each once.
pub open spec fn manifest_folders(manifests: Seq<String>, count: nat) -> Seq<Seq<char>>
    decreases count,
{
    if count == 0 {
        Seq::empty()
    } else {
        let earlier = manifest_folders(manifests, (count - 1) as nat);
        let folder = parent(manifests[count - 1]@);
        if earlier.contains(folder) {
            earlier
        } else {
            earlier.push(folder)
        }
    }
}

/// The directories of the packages that Cargo reports, each once.
pub fn package_roots(manifests: &Vec<String>) -> (roots: Vec<String>)
    ensures
        texts(roots@) == manifest_folders(manifests@, manifests@.len()),
{
    let mut roots: Vec<String> = Vec::new();
    let mut index: usize = 0;
    assert(texts(roots@) =~= Seq::<Seq<char>>::empty());
    while index < manifests.len()
        invariant
            index <= manifests@.len(),
            texts(roots@) == manifest_folders(manifests@, index as nat),
        decreases manifests@.len() - index,
    {
        let ghost held = texts(roots@);
        let folder = parent_of(manifests[index].as_str());
        if !holds_text(&roots, folder.as_str()) {
            let ghost added = folder@;
            roots.push(folder);
            assert(texts(roots@) =~= held.push(added));
        }
        index += 1;
    }
    roots
}

}
