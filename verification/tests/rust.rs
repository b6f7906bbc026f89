use kompass::analyze::{analyze as report_on, Selection, SourceFile};
use kompass::discover::LanguageFilter;
use kompass::model::{Category, FunctionKind, Language, Position, Report};
use kompass::rust::analyze;
use kompass::summary::summarize_burden;
use kompass::tokens::lex;

fn report(source: &str) -> Report {
    let files = vec![SourceFile {
        path: "/tmp/src/lib.rs".to_owned(),
        language: Language::Rust,
        category: Category::Production,
        source: Ok(source.to_owned()),
    }];
    let selection = Selection {
        language_filter: LanguageFilter::All,
        explicit_file: false,
    };
    report_on("/tmp", &files, &vec![Vec::new()], selection).unwrap()
}

#[test]
fn collects_modules_methods_traits_and_nested_functions() {
    let source = r#"
            mod parser {
                pub fn parse(input: &str) {
                    fn helper(value: &str) { let _ = value; }
                    let _ = helper;
                }
                struct Thing;
                impl Thing {
                    fn run(&self) {}
                }
                trait Parse {
                    fn defaulted(&self) {}
                    fn required(&self);
                }
            }
        "#;
    let result = report(source);
    let names = result.files[0]
        .functions
        .iter()
        .map(|function| function.name.as_str())
        .collect::<Vec<_>>();

    assert!(names.contains(&"parser::parse"));
    assert!(names.contains(&"parser::parse::helper"));
    assert!(names.contains(&"parser::Thing::run"));
    assert!(names.contains(&"parser::Parse::defaulted"));
    assert!(!names.contains(&"parser::Parse::required"));

    let outer = result.files[0]
        .functions
        .iter()
        .find(|function| function.name == "parser::parse")
        .unwrap();
    let nested = result.files[0]
        .functions
        .iter()
        .find(|function| function.name == "parser::parse::helper")
        .unwrap();
    assert!(outer.tokens > nested.tokens);
}

#[test]
fn test_items_are_classified_without_changing_the_score() {
    let source = r#"
            #[cfg(test)]
            mod tests { fn module_test() {} }
            #[test]
            fn direct_test() {}
            #[tokio::test]
            async fn async_test() {}
            #[rstest]
            fn parameterized_test() {}
            #[cfg(any(test, feature = "optional"))]
            fn conditional_production() {}
            #[cfg(all(test, feature = "optional"))]
            fn conditional_test() {}
            #[cfg_attr(test, inline)]
            fn attribute_only_production() {}
            fn production() {}
        "#;
    let collection = analyze(source, Category::Production).unwrap();
    assert_eq!(collection.functions.len(), 8);
    assert_eq!(
        collection
            .functions
            .iter()
            .filter(|function| function.category == Category::Test)
            .count(),
        5
    );

    let integration = analyze(source, Category::Test).unwrap();
    assert!(
        integration
            .functions
            .iter()
            .all(|function| function.category == Category::Test)
    );
}

#[test]
fn reports_closures_and_uses_exclusive_file_burden() {
    let source = r#"
            struct Runner;
            impl Runner {
                fn run(&mut self, value: bool) {
                    let check = || if value { work(); } else { recover(); };
                    check();
                }
            }
        "#;
    let collection = analyze(source, Category::Production).unwrap();
    let closure = collection
        .functions
        .iter()
        .find(|function| function.kind == FunctionKind::Closure)
        .unwrap();
    let method = collection
        .functions
        .iter()
        .find(|function| function.name == "Runner::run")
        .unwrap();

    assert_eq!(method.metrics.explicit_parameters, 1);
    assert_eq!(method.metrics.control_decisions, 0);
    assert_eq!(method.metrics.call_sites, 1);
    assert_eq!(closure.metrics.control_decisions, 1);
    assert_eq!(closure.metrics.call_sites, 2);
    assert_eq!(closure.score.value, 10 + 10 + 2 * 2);

    let burden = summarize_burden(&collection.functions);
    assert_eq!(burden.production, method.score.value + closure.score.value);
    assert_eq!(burden.total, burden.production);
}

#[test]
fn reports_const_static_and_associated_initializers() {
    let source = r#"
            const TOP: i32 = { if true { 1 } else { 2 } };
            static GLOBAL: i32 = { if false { 3 } else { 4 } };
            struct Thing;
            impl Thing {
                const ASSOCIATED: i32 = { let value = 5; value };
            }
            trait Trait {
                const DEFAULTED: i32 = { if true { 6 } else { 7 } };
                const REQUIRED: i32;
            }
            fn run() {
                const LOCAL: i32 = { if true { 8 } else { 9 } };
                let _ = LOCAL;
            }
        "#;
    let collection = analyze(source, Category::Production).unwrap();

    assert_eq!(collection.functions.len(), 6);
    let initializer = |name: &str, kind: FunctionKind| {
        collection
            .functions
            .iter()
            .find(|function| function.name == name && function.kind == kind)
            .unwrap_or_else(|| panic!("missing initializer {name}"))
    };

    assert_eq!(
        initializer("TOP", FunctionKind::ConstInitializer)
            .metrics
            .control_decisions,
        1
    );
    assert_eq!(
        initializer("GLOBAL", FunctionKind::StaticInitializer)
            .metrics
            .control_decisions,
        1
    );
    assert!(
        initializer("Thing::ASSOCIATED", FunctionKind::ConstInitializer)
            .metrics
            .statements
            > 0
    );
    assert_eq!(
        initializer("Trait::DEFAULTED", FunctionKind::ConstInitializer)
            .metrics
            .control_decisions,
        1
    );
    assert!(
        collection
            .functions
            .iter()
            .all(|function| function.name != "Trait::REQUIRED")
    );
    assert_eq!(
        initializer("run::LOCAL", FunctionKind::ConstInitializer)
            .metrics
            .control_decisions,
        1
    );

    let run = collection
        .functions
        .iter()
        .find(|function| function.name == "run")
        .unwrap();
    assert_eq!(run.metrics.control_decisions, 0);
}

#[test]
fn closure_extraction_keeps_surrounding_nesting_in_the_child() {
    let source =
        "fn run(value: bool) { if value { let check = || if value { work(); }; check(); } }";
    let collection = analyze(source, Category::Production).unwrap();
    let parent = collection
        .functions
        .iter()
        .find(|function| function.name == "run")
        .unwrap();
    let closure = collection
        .functions
        .iter()
        .find(|function| function.kind == FunctionKind::Closure)
        .unwrap();

    assert_eq!(parent.metrics.control_decisions, 1);
    assert_eq!(parent.metrics.nesting_penalty, 0);
    assert_eq!(closure.metrics.control_decisions, 1);
    assert_eq!(closure.metrics.nesting_penalty, 1);
    assert_eq!(closure.metrics.call_sites, 1);
}

#[test]
fn macro_opacity_counts_source_invocations_and_tokens() {
    let source = r#"
            macro_rules! make_item { ($item:item) => { $item }; }
            make_item!(fn generated() {});
            fn run() {
                println!("hello");
                let values = vec![1, 2, 3];
                let _ = values;
            }
        "#;
    let opacity = analyze(source, Category::Production).unwrap().macro_opacity;

    assert_eq!(opacity.invocations, 3);
    assert_eq!(opacity.definitions, 1);
    assert!(opacity.source_tokens >= opacity.invocations);
    assert!(opacity.definition_tokens > 0);

    let changed_source = source.replace(
        "($item:item) => { $item }",
        "($item:item) => { if true { $item } else { $item } }",
    );
    let changed_opacity = analyze(&changed_source, Category::Production)
        .unwrap()
        .macro_opacity;
    assert_eq!(changed_opacity.invocations, opacity.invocations);
    assert_eq!(changed_opacity.definitions, opacity.definitions);
    assert!(changed_opacity.definition_tokens > opacity.definition_tokens);
}

#[test]
fn function_tokens_cover_signature_through_body_but_exclude_outer_attrs() {
    let source = r#"
            #[inline]
            fn outer<'a>(value: &'a str) {
                fn inner() {}
                let _ = value;
            }
        "#;
    let collection = analyze(source, Category::Production).unwrap();
    let outer = collection
        .functions
        .iter()
        .find(|function| function.name == "outer")
        .unwrap();
    let inner = collection
        .functions
        .iter()
        .find(|function| function.name == "outer::inner")
        .unwrap();

    assert_eq!(
        outer.tokens,
        lex("fn outer<'a>(value: &'a str) { fn inner() {} let _ = value; }")
            .unwrap()
            .total_tokens()
    );
    assert_eq!(
        inner.tokens,
        lex("fn inner() {}").unwrap().total_tokens()
    );
}

#[test]
fn locations_are_one_based_and_public_visibility_is_included() {
    let source =
        "\n\npub fn free() {}\n\nstruct Thing;\nimpl Thing {\n    pub fn method() {}\n}\n";
    let result = report(source);
    let free = result.files[0]
        .functions
        .iter()
        .find(|function| function.name == "free")
        .unwrap();
    let method = result.files[0]
        .functions
        .iter()
        .find(|function| function.name == "Thing::method")
        .unwrap();

    assert_eq!(free.location.start, Position { line: 3, column: 1 });
    assert_eq!(
        free.location.end,
        Position {
            line: 3,
            column: 17
        }
    );
    assert_eq!(method.location.start, Position { line: 7, column: 5 });
    assert_eq!(
        method.location.end,
        Position {
            line: 7,
            column: 23
        }
    );
    assert_eq!(free.metrics.code_lines, 1);
    assert_eq!(method.metrics.code_lines, 1);
    assert_eq!(
        free.tokens,
        lex("pub fn free() {}").unwrap().total_tokens()
    );
    assert_eq!(
        method.tokens,
        lex("pub fn method() {}").unwrap().total_tokens()
    );
}
