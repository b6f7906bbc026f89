use kompass::discover::{
    discover_cargo_targets, discover_filesystem, is_python_test_path, is_test_path, is_tool_output,
    should_skip_directory, CargoTarget, Discovery, LanguageFilter,
};
use kompass::model::{Category, Language};

fn listed(discovery: &Discovery) -> Vec<&str> {
    discovery
        .files
        .iter()
        .map(|file| file.path.as_str())
        .collect()
}

fn owned(paths: &[&str]) -> Vec<String> {
    paths.iter().map(|path| (*path).to_owned()).collect()
}

#[test]
fn conventional_test_paths_are_available_for_cargo_classification() {
    assert!(is_test_path("crate/tests/http.rs"));
    assert!(is_test_path("crate/benches/parser.rs"));
    assert!(!is_test_path("crate/src/test_utils.rs"));
}

#[test]
fn python_test_conventions_and_language_filter_are_stable() {
    assert!(is_python_test_path("project/tests/http.py"));
    assert!(is_python_test_path("project/test_parser.py"));
    assert!(is_python_test_path("project/parser_test.py"));
    assert!(is_python_test_path("project/conftest.py"));
    assert!(!is_python_test_path("project/src/parser.py"));
    assert!(LanguageFilter::All.includes(Language::Rust));
    assert!(LanguageFilter::All.includes(Language::Python));
    assert!(LanguageFilter::Python.includes(Language::Python));
    assert!(!LanguageFilter::Python.includes(Language::Rust));
}

#[test]
fn build_output_and_dependency_directories_are_skipped() {
    assert!(should_skip_directory("target", false));
    assert!(should_skip_directory(".git", false));
    assert!(should_skip_directory("vendor", false));
    assert!(!should_skip_directory("src", false));
}

#[test]
fn tool_output_is_left_out_for_the_script_languages_alone() {
    for name in ["dist", "build", "coverage", ".expo"] {
        assert!(!should_skip_directory(name, false));
    }
    let paths = owned(&[
        "/work/build/.expo/state.js",
        "/work/build/app.js",
        "/work/build/coverage/report.py",
        "/work/build/dist/app.tsx",
        "/work/build/src/build/mod.rs",
        "/work/build/src/build/page.ts",
        "/work/build/src/dist.js",
    ]);
    let discovery = discover_filesystem("/work/build", &paths, LanguageFilter::All);
    assert_eq!(
        listed(&discovery),
        vec![
            "/work/build/app.js",
            "/work/build/coverage/report.py",
            "/work/build/src/build/mod.rs",
            "/work/build/src/dist.js",
        ]
    );
    assert!(is_tool_output("/work", "/work/build/app.js"));
    assert!(!is_tool_output("/work", "/work/build/app.rs"));
    assert!(!is_tool_output("/work", "/work/dist.ts"));
}

#[test]
fn cargo_targets_win_and_other_languages_come_from_the_root() {
    let targets = vec![
        CargoTarget {
            path: "/outside/extra.rs".to_owned(),
            kinds: owned(&["bin"]),
        },
        CargoTarget {
            path: "/work/checks/run.rs".to_owned(),
            kinds: owned(&["test"]),
        },
    ];
    let package = owned(&["/work/build/mod.rs", "/work/checks/run.rs", "/work/tool.py"]);
    let root = owned(&[
        "/work/build/mod.rs",
        "/work/build/page.js",
        "/work/page.js",
        "/work/tool.py",
    ]);
    let discovery =
        discover_cargo_targets(&targets, "/work", &package, &root, LanguageFilter::All);
    let found: Vec<(&str, Category)> = discovery
        .files
        .iter()
        .map(|file| (file.path.as_str(), file.category))
        .collect();
    assert_eq!(
        found,
        vec![
            ("/outside/extra.rs", Category::Production),
            ("/work/build/mod.rs", Category::Production),
            ("/work/checks/run.rs", Category::Test),
            ("/work/page.js", Category::Production),
            ("/work/tool.py", Category::Production),
        ]
    );
    let rust = discover_cargo_targets(&targets, "/work", &package, &root, LanguageFilter::Rust);
    assert_eq!(rust.files.len(), 3);
    assert_eq!(rust.test_files, 1);
}
