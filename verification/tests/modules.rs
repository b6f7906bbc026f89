use kompass::analyze::{analyze, Selection, SourceFile};
use kompass::discover::LanguageFilter;
use kompass::model::{Category, ErrorKind, Language, Report};
use kompass::modules::{list_module_places, ModulePlace, PlacedModule};
use kompass::rust::declared_modules;

fn placed_modules(path: &str, source: &str) -> Vec<PlacedModule> {
    declared_modules(source)
        .iter()
        .map(|declaration| PlacedModule {
            places: list_module_places(path, declaration)
                .into_iter()
                .map(|path| ModulePlace {
                    path,
                    canonical: None,
                })
                .collect(),
            test_only: declaration.test_only,
        })
        .collect()
}

fn report(sources: &[(&str, &str)]) -> Report {
    let files: Vec<SourceFile> = sources
        .iter()
        .map(|(name, source)| SourceFile {
            path: format!("/root/{name}"),
            language: Language::Rust,
            category: Category::Production,
            source: Ok((*source).to_owned()),
        })
        .collect();
    let modules = sources
        .iter()
        .map(|(name, source)| placed_modules(&format!("/root/{name}"), source))
        .collect();
    let selection = Selection {
        language_filter: LanguageFilter::All,
        explicit_file: false,
    };
    analyze("/root", &files, &modules, selection).unwrap()
}

fn categories(report: &Report) -> Vec<(String, Category)> {
    report
        .files
        .iter()
        .map(|file| (file.path.clone(), file.functions[0].category))
        .collect()
}

#[test]
fn cfg_test_external_modules_inherit_test_category() {
    let report = report(&[
        (
            "lib.rs",
            "#[cfg(test)] mod test_helpers;\nfn production() {}\n",
        ),
        ("test_helpers.rs", "mod nested;\nfn helper() {}\n"),
        ("nested.rs", "fn nested() {}\n"),
    ]);
    assert!(report.coverage.complete);
    assert_eq!(report.coverage.test_files, 2);
    assert_eq!(
        categories(&report),
        vec![
            ("lib.rs".to_owned(), Category::Production),
            ("nested.rs".to_owned(), Category::Test),
            ("test_helpers.rs".to_owned(), Category::Test),
        ]
    );
}

#[test]
fn shared_external_module_is_production_when_reachable_from_both_contexts() {
    let report = report(&[
        (
            "lib.rs",
            "mod shared;\n#[cfg(test)]\n#[path = \"shared.rs\"]\nmod shared_for_tests;\n#[cfg(test)]\nmod test_only;\nfn production() {}\n",
        ),
        ("shared.rs", "fn shared() {}\n"),
        ("test_only.rs", "fn helper() {}\n"),
    ]);
    assert!(report.coverage.complete);
    assert_eq!(report.coverage.test_files, 1);
    assert_eq!(
        categories(&report),
        vec![
            ("lib.rs".to_owned(), Category::Production),
            ("shared.rs".to_owned(), Category::Production),
            ("test_only.rs".to_owned(), Category::Test),
        ]
    );
}

#[test]
fn shared_external_module_cycles_preserve_production_dominance() {
    let report = report(&[
        (
            "lib.rs",
            "mod production;\n#[cfg(test)] mod test_root;\nfn entry() {}\n",
        ),
        ("production.rs", "mod cycle;\nfn production_helper() {}\n"),
        ("test_root.rs", "mod cycle;\nfn test_helper() {}\n"),
        (
            "cycle.rs",
            "#[path = \"production.rs\"] mod production_again;\nfn cycle_helper() {}\n",
        ),
    ]);
    assert!(report.coverage.complete);
    assert_eq!(report.coverage.test_files, 1);
    assert_eq!(
        categories(&report),
        vec![
            ("cycle.rs".to_owned(), Category::Production),
            ("lib.rs".to_owned(), Category::Production),
            ("production.rs".to_owned(), Category::Production),
            ("test_root.rs".to_owned(), Category::Test),
        ]
    );
}

#[test]
fn an_unparseable_file_is_reported_as_partial_coverage() {
    let report = report(&[("broken.rs", "fn broken( {")]);
    assert!(!report.coverage.complete);
    assert_eq!(report.coverage.failed_files, 1);
    assert!(matches!(report.errors[0].kind, ErrorKind::Parse));
    assert_eq!(report.errors[0].path.as_deref(), Some("broken.rs"));
}

#[test]
fn modules_are_looked_for_beside_the_file_and_in_their_folder() {
    let declarations = declared_modules("mod plain;\n#[path = \"/abs/x.rs\"] mod given;\n");
    assert_eq!(
        list_module_places("/p/src/lib.rs", &declarations[0]),
        vec!["/p/src/plain.rs", "/p/src/plain/mod.rs"]
    );
    assert_eq!(
        list_module_places("/p/src/lib.rs", &declarations[1]),
        vec!["/abs/x.rs"]
    );
    assert_eq!(
        list_module_places("lib.rs", &declarations[0]),
        vec!["plain.rs", "plain/mod.rs"]
    );
}

#[test]
fn a_module_is_found_where_links_lead() {
    let files = vec![
        SourceFile {
            path: "/real/lib.rs".to_owned(),
            language: Language::Rust,
            category: Category::Production,
            source: Ok("#[cfg(test)] mod helper;\nfn main() {}\n".to_owned()),
        },
        SourceFile {
            path: "/real/helper.rs".to_owned(),
            language: Language::Rust,
            category: Category::Production,
            source: Ok("fn helper() {}\n".to_owned()),
        },
    ];
    let modules = vec![
        vec![PlacedModule {
            places: vec![ModulePlace {
                path: "/link/helper.rs".to_owned(),
                canonical: Some("/real/helper.rs".to_owned()),
            }],
            test_only: true,
        }],
        Vec::new(),
    ];
    let selection = Selection {
        language_filter: LanguageFilter::Rust,
        explicit_file: true,
    };
    let report = analyze("/real", &files, &modules, selection).unwrap();
    assert_eq!(report.coverage.test_files, 1);
    assert_eq!(report.files[0].path, "helper.rs");
    assert_eq!(report.files[0].functions[0].category, Category::Test);
    assert_eq!(report.scope.selection, "file");
    assert_eq!(report.scope.language_filter, "rust");
    assert_eq!(report.scope.category_policy, "production-test-separated-v1");
}

#[test]
fn an_unreadable_file_is_reported_with_its_reason() {
    let files = vec![SourceFile {
        path: "/p/gone.py".to_owned(),
        language: Language::Python,
        category: Category::Test,
        source: Err("No such file".to_owned()),
    }];
    let selection = Selection {
        language_filter: LanguageFilter::All,
        explicit_file: false,
    };
    let report = analyze("/p", &files, &vec![Vec::new()], selection).unwrap();
    assert_eq!(report.errors.len(), 1);
    assert_eq!(report.errors[0].path.as_deref(), Some("gone.py"));
    assert_eq!(report.errors[0].kind, ErrorKind::Read);
    assert_eq!(report.errors[0].message, "No such file");
    assert_eq!(report.coverage.discovered_files, 1);
    assert_eq!(report.coverage.analyzed_files, 0);
    assert_eq!(report.coverage.test_files, 1);
    assert_eq!(report.report_kind, "analysis");
    assert_eq!(report.tool, "kompass");
    assert_eq!(report.version, "0.3.0");
    assert_eq!(report.model, "structural-v4");
}
