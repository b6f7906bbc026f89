use kompass::analyze::{analyze, Selection, SourceFile};
use kompass::diff::{compare_reports, CompareOptions, Comparison, DiffError};
use kompass::diff_text;
use kompass::discover::{category_for_path, language_for_path, LanguageFilter};
use kompass::explain::{compact_analysis, compact_diff, explain_report, ExplainTarget};
use kompass::model::{AnalysisContract, Category, FunctionReport, Language, Report, SortBy};
use kompass::output::{render_explain_text, render_text};
use kompass::report_input::{
    InputBurden, InputCoverage, InputFile, InputFunction, InputMacroOpacity, InputMetrics,
    InputReport, InputScore, InputSummary,
};

fn report(sources: &[(&str, &str)]) -> Report {
    let files: Vec<SourceFile> = sources
        .iter()
        .map(|(name, source)| {
            let path = format!("/work/my-project/{name}");
            let language = language_for_path(&path).unwrap();
            SourceFile {
                category: category_for_path(&path, language),
                source: Ok((*source).to_owned()),
                language,
                path,
            }
        })
        .collect();
    let modules = files.iter().map(|_| Vec::new()).collect();
    let selection = Selection {
        language_filter: LanguageFilter::All,
        explicit_file: false,
    };
    analyze("/work/my-project", &files, &modules, selection).unwrap()
}

fn input_function(function: &FunctionReport) -> InputFunction {
    let metrics = &function.metrics;
    let score = &function.score;
    InputFunction {
        snapshot_id: function.snapshot_id.clone(),
        declaration_fingerprint: function.declaration_fingerprint.clone(),
        body_fingerprint: function.body_fingerprint.clone(),
        name: function.name.clone(),
        kind: function.kind.serialized().to_owned(),
        category: match function.category {
            Category::Production => "production".to_owned(),
            Category::Test => "test".to_owned(),
        },
        metrics: InputMetrics {
            code_lines: metrics.code_lines,
            statements: metrics.statements,
            expression_operations: metrics.expression_operations,
            decisions: metrics.decisions,
            control_decisions: metrics.control_decisions,
            nesting_penalty: metrics.nesting_penalty,
            max_depth: metrics.max_depth,
            macro_calls: metrics.macro_calls,
            branches: metrics.branches,
            boolean_operators: metrics.boolean_operators,
            match_arms: metrics.match_arms,
            loops: metrics.loops,
            returns: metrics.returns,
            mutations: metrics.mutations,
            parameters: metrics.parameters,
            explicit_parameters: metrics.explicit_parameters,
            call_sites: metrics.call_sites,
            closures: metrics.closures,
            unsafe_blocks: metrics.unsafe_blocks,
        },
        score: InputScore {
            value: score.value,
            control_decisions: score.control_decisions,
            nesting_penalty: score.nesting_penalty,
            boundary: score.boundary,
            boolean_operator_units: score.boolean_operator_units,
            call_site_units: score.call_site_units,
            parameter_units: score.parameter_units,
            match_arm_units: score.match_arm_units,
            expression_operation_units: score.expression_operation_units,
        },
    }
}

fn input(report: &Report) -> InputReport {
    let opacity = |held: kompass::model::MacroOpacity| InputMacroOpacity {
        invocations: held.invocations,
        source_tokens: held.source_tokens,
        definitions: held.definitions,
        definition_tokens: held.definition_tokens,
    };
    let burden = |held: kompass::model::Burden| InputBurden {
        production: held.production,
        test: held.test,
        total: held.total,
    };
    InputReport {
        tool: report.tool.clone(),
        version: report.version.clone(),
        model: report.model.clone(),
        schema_version: report.schema_version,
        evidence_version: report.evidence_version.clone(),
        analysis_contract: report.analysis_contract.clone(),
        root: report.root.clone(),
        summary: InputSummary {
            burden: burden(report.summary.burden),
        },
        coverage: InputCoverage {
            discovered_files: report.coverage.discovered_files,
            analyzed_files: report.coverage.analyzed_files,
            failed_files: report.coverage.failed_files,
            test_files: report.coverage.test_files,
            complete: report.coverage.complete,
        },
        macro_opacity: opacity(report.macro_opacity),
        files: report
            .files
            .iter()
            .map(|file| InputFile {
                path: file.path.clone(),
                language: file.language,
                functions: file.functions.iter().map(input_function).collect(),
                burden: burden(file.burden),
                macro_opacity: opacity(file.macro_opacity),
            })
            .collect(),
        errors: Vec::new(),
    }
}

fn compare(
    before: &InputReport,
    after: &InputReport,
    allow_file_changes: bool,
    allow_root_change: bool,
) -> Result<Comparison, DiffError> {
    let options = CompareOptions {
        allow_file_changes,
        allow_root_change,
    };
    compare_reports("before.json", "after.json", before, after, options)
}

fn text_of(report: &Report, sort: SortBy) -> String {
    render_text(report, 10, false, false, sort, "1.3", "0.0")
}

#[test]
fn the_first_example_reads_as_documented() {
    let report = report(&[(
        "README-example.rs",
        "fn increment(value: i32) -> i32 {\n    let next = value + 1;\n    next\n}\n",
    )]);
    let text = text_of(&report, SortBy::Score);
    for expected in [
        "Rust structural complexity · structural-v4\n/work/my-project\n1 files · 4 code lines · 20 tokens\n",
        "Production · 1 callables · total burden 1.3 · average 1.3 · p95 1.3 · highest 1.3\n",
        "Tests · 0 callables · total burden 0.0 · average 0.0 · p95 0.0 · highest 0.0\n",
        "Repository burden · 1.3 total · 1.3 production · 0.0 tests\n",
        "Macro opacity · 0 source invocations · 0 invocation source tokens · 0 definitions · 0 definition tokens · unexpanded and excluded from score\n",
        "Files by burden · top 10\n    1.3  1 callables · highest 1.3 · 1.3 production · 0.0 tests · Rust · README-example.rs\nCoverage complete · 1 of 1 files analyzed\n",
        "Most complex production callables · sorted by score\n    1.3  README-example.rs:1:1  increment\n       4 lines · 4 code lines · 20 Tokens · 0 decisions · max depth 0 · 0 nesting penalty · 2 statements · 0 macro calls\n       score: 1.3 = 1.0 boundary + 0.0 control decisions + 0.0 nesting + 0.0 boolean operators + 0.1 expression operations + 0.0 call sites + 0.2 explicit parameters + 0.0 match arms\n",
    ] {
        assert!(text.contains(expected), "missing {expected:?} in\n{text}");
    }
}

#[test]
fn text_shows_the_exact_operation_breakdown() {
    let report = report(&[(
        "main.rs",
        "fn sample(value: i32) { let _ = (value + 1) as i64; }\n",
    )]);
    let text = text_of(&report, SortBy::Score);
    assert!(text.contains("Kompass 0.3.0 · Rust structural complexity · structural-v4"));
    assert!(text.contains(
        "score: 1.4 = 1.0 boundary + 0.0 control decisions + 0.0 nesting + 0.0 boolean operators + 0.2 expression operations + 0.0 call sites + 0.2 explicit parameters + 0.0 match arms"
    ));
}

#[test]
fn reports_expression_operation_units_in_json() {
    let report = report(&[(
        "main.rs",
        "fn sample(value: i32) { let _ = (value + 1) as i64; }\n",
    )]);
    let function = &report.files[0].functions[0];
    assert_eq!(report.model, "structural-v4");
    assert_eq!(function.metrics.expression_operations, 2);
    assert_eq!(function.score.expression_operation_units, 2);
    assert_eq!(function.score.value, 14);
    assert_eq!(function.score.display, "1.4");
}

#[test]
fn sort_options_are_accepted_and_visible_in_text() {
    let report = report(&[(
        "main.rs",
        "fn shallow() {}\nfn deep(value: bool) { if value { if value {} } }\n",
    )]);
    for (sort, expected) in [
        (SortBy::Score, "sorted by score"),
        (SortBy::Depth, "sorted by depth"),
        (SortBy::Size, "sorted by size"),
    ] {
        assert!(text_of(&report, sort).contains(expected));
    }
}

#[test]
fn mixed_language_reports_and_language_filters_are_consistent() {
    let report = report(&[
        ("main.rs", "fn rust_main() {}\n"),
        (
            "script.py",
            "def python_main(value):\n    return value + 1\n",
        ),
        (
            "tests/test_script.py",
            "def test_script():\n    assert True\n",
        ),
    ]);
    assert_eq!(report.summary.languages.rust, 1);
    assert_eq!(report.summary.languages.python, 2);
    assert_eq!(report.summary.test.functions, 1);
    assert_eq!(report.files.len(), 3);
    let text = text_of(&report, SortBy::Score);
    assert!(text.contains("Mixed-language structural complexity"));
    assert!(text.contains("Languages · 1 Rust files · 2 Python files"));
}

#[test]
fn all_four_extensions_are_discovered_and_scored() {
    let report = report(&[
        ("a.js", "function a() { return 1; }\n"),
        ("b.jsx", "export const B = () => <p>{1 + 1}</p>;\n"),
        ("c.ts", "function c(x: number): number { return x; }\n"),
        ("d.tsx", "export const D = () => <p />;\n"),
    ]);
    assert_eq!(report.scope.language_filter, "all");
    assert!(report.coverage.complete);
    assert_eq!(report.summary.files, 4);
    assert_eq!(report.summary.languages.javascript, 2);
    assert_eq!(report.summary.languages.typescript, 2);
    assert_eq!(report.summary.by_language.javascript.files, 2);
    assert_eq!(report.summary.by_language.typescript.files, 2);
    assert_eq!(report.coverage.test_files, 0);
    let mut ids: Vec<&str> = Vec::new();
    for file in &report.files {
        for function in &file.functions {
            assert!(function.tokens > 0);
            assert!(function.snapshot_id.starts_with("identity-v1:snapshot:"));
            assert!(!ids.contains(&function.snapshot_id.as_str()));
            ids.push(&function.snapshot_id);
            let located: usize = function
                .score
                .contributions
                .iter()
                .map(|contribution| contribution.units)
                .sum();
            assert_eq!(located, function.score.units);
        }
    }
    assert!(!ids.is_empty());
}

#[test]
fn diff_reports_show_function_groups_burden_components_and_opacity() {
    let before = input(&report(&[(
        "main.rs",
        "fn stable(value: bool) { if value {} }\nfn removed() {}\n",
    )]));
    let after = input(&report(&[(
        "main.rs",
        "fn stable(value: bool) { if value { if value {} } }\nfn added() {}\n",
    )]));
    let comparison = compare(&before, &after, false, false).unwrap();
    let text = diff_text::render_text(&comparison);
    for expected in [
        "Production burden",
        "Changed callables · 2",
        "stable",
        "added",
        "Top score component deltas",
        "Macro opacity",
        "Callable summary deltas",
        "File burden deltas",
    ] {
        assert!(text.contains(expected), "diff is missing {expected:?}\n{text}");
    }
    assert!(comparison.comparable);
    assert_eq!(comparison.functions.changed.len(), 2);
    assert_eq!(comparison.functions.added.len(), 0);
    assert_eq!(comparison.functions.removed.len(), 0);
    assert_eq!(comparison.file_burdens.len(), 1);
    assert_eq!(comparison.macro_opacity.invocations.delta, 0);

    let compact = compact_diff(&comparison, 1);
    assert_eq!(compact.report_kind, "diff_compact");
    assert_eq!(compact.returned, 1);
    assert_eq!(compact.total, 2);
}

#[test]
fn diff_rejects_model_and_coverage_mismatches() {
    let before = input(&report(&[("main.rs", "fn stable() {}\n")]));
    let mut other_model = input(&report(&[("main.rs", "fn stable() {}\n")]));
    other_model.model = "other-model".to_owned();
    let refusal = compare(&before, &other_model, false, false).unwrap_err();
    assert!(refusal.message().contains("score model differs"));

    let mut other_contract = input(&report(&[("main.rs", "fn stable() {}\n")]));
    other_contract.analysis_contract = AnalysisContract {
        frontend: "other-frontend".to_owned(),
        ..AnalysisContract::current()
    };
    let refusal = compare(&before, &other_contract, false, false).unwrap_err();
    assert!(refusal.message().contains("analysis contract differs"));

    let mut incomplete = input(&report(&[("main.rs", "fn stable() {}\n")]));
    incomplete.coverage.complete = false;
    let refusal = compare(&before, &incomplete, false, false).unwrap_err();
    assert!(refusal.message().contains("after coverage is incomplete"));
}

#[test]
fn diff_allows_an_explicit_root_override() {
    let before = input(&report(&[("main.rs", "fn run() {}\n")]));
    let mut after = input(&report(&[("main.rs", "fn run() {}\n")]));
    after.root = "/equivalent-worktree".to_owned();
    let refusal = compare(&before, &after, false, false).unwrap_err();
    assert!(refusal.message().contains("--allow-root-change"));
    let comparison = compare(&before, &after, false, true).unwrap();
    assert!(comparison
        .warnings
        .iter()
        .any(|warning| warning.contains("roots differ")));
}

#[test]
fn diff_requires_opt_in_for_file_changes_and_highlights_scope_delta() {
    let before = input(&report(&[("main.rs", "fn stable() {}\n")]));
    let after = input(&report(&[
        ("main.rs", "fn stable() {}\n"),
        ("new.rs", "fn added_file() {}\n"),
    ]));
    let refusal = compare(&before, &after, false, false).unwrap_err().message();
    assert!(refusal.contains("file scope differs"), "{refusal}");
    assert!(refusal.contains("--allow-file-changes"), "{refusal}");
    let text = diff_text::render_text(&compare(&before, &after, true, false).unwrap());
    for expected in [
        "WARNING: file set changed",
        "Added files · 1",
        "new.rs",
        "aggregate burden and component deltas include added and removed files",
    ] {
        assert!(text.contains(expected), "diff is missing {expected:?}\n{text}");
    }
}

#[test]
fn unchanged_reports_compare_without_a_change() {
    let source = "fn a(x: bool) { if x { b(); } }\nfn b() {}\n";
    let before = input(&report(&[("main.rs", source)]));
    let after = input(&report(&[("main.rs", source)]));
    let comparison = compare(&before, &after, false, false).unwrap();
    assert!(comparison.functions.changed.is_empty());
    assert!(comparison.functions.moved.is_empty());
    assert_eq!(comparison.burden.total.delta, 0);
    assert!(comparison.components.iter().all(|component| component.delta == 0));
}

#[test]
fn moving_a_callable_between_files_keeps_the_burden() {
    let together = report(&[
        ("a.rs", "fn one(x: bool) { if x {} }\nfn two() { one(true); }\n"),
        ("b.rs", "\n"),
    ]);
    let apart = report(&[
        ("a.rs", "fn one(x: bool) { if x {} }\n"),
        ("b.rs", "fn two() { one(true); }\n"),
    ]);
    assert_eq!(together.summary.burden, apart.summary.burden);
    assert_eq!(together.summary.burden.total, 22 + 12);
}

#[test]
fn malformed_typescript_is_a_partial_report_with_valid_siblings() {
    let report = report(&[
        ("src/valid.jsx", "export const A = () => <p />;\n"),
        ("src/malformed.tsx", "export const B = ( => <p>;\n"),
    ]);
    assert_eq!(report.coverage.discovered_files, 2);
    assert_eq!(report.coverage.analyzed_files, 1);
    assert_eq!(report.coverage.failed_files, 1);
    assert!(!report.coverage.complete);
    assert_eq!(report.files[0].path, "src/valid.jsx");
    assert_eq!(report.errors[0].path.as_deref(), Some("src/malformed.tsx"));
    assert_eq!(report.errors[0].kind, kompass::model::ErrorKind::Parse);
    assert!(report.has_errors());
}

#[test]
fn mixed_scope_classifies_tests_separately() {
    let report = report(&[
        ("src/keep.js", "function keep() { return 1; }\n"),
        ("tests/widget.test.jsx", "function widget() { return 1; }\n"),
        ("__tests__/screen.spec.tsx", "function screen() { return 1; }\n"),
    ]);
    assert_eq!(report.coverage.test_files, 2);
    assert_eq!(report.summary.production.functions, 1);
    assert_eq!(report.summary.test.functions, 2);
}

#[test]
fn a_callable_that_lies_inside_is_the_innermost() {
    let report = report(&[(
        "main.js",
        "const outer = function () { const inner = () => {\n  work();\n}; };\n",
    )]);
    let target = ExplainTarget {
        shown: "main.js".to_owned(),
        path: "/work/my-project/main.js".to_owned(),
        is_file: true,
    };
    let explanation = explain_report(&report, &target, 2).unwrap();
    assert_eq!(explanation.candidates.len(), 2);
    assert!(!explanation.candidates[0].innermost);
    assert!(explanation.candidates[1].innermost);
    assert_eq!(explanation.candidates[1].location.start.line, 1);
    assert_eq!(explanation.candidates[1].location.end.line, 3);
}

#[test]
fn a_line_is_explained_by_its_innermost_callable() {
    let report = report(&[(
        "main.rs",
        "fn outer(x: bool) {\n    let f = || {\n        if x { work(); }\n    };\n    f();\n}\n",
    )]);
    let target = ExplainTarget {
        shown: "main.rs".to_owned(),
        path: "/work/my-project/main.rs".to_owned(),
        is_file: true,
    };
    let explanation = explain_report(&report, &target, 3).unwrap();
    assert_eq!(explanation.candidates.len(), 2);
    let innermost: Vec<&str> = explanation
        .candidates
        .iter()
        .filter(|candidate| candidate.innermost)
        .map(|candidate| candidate.name.as_str())
        .collect();
    assert_eq!(innermost, vec!["outer::<closure@2:13>"]);
    for candidate in &explanation.candidates {
        assert_eq!(candidate.components.len(), 8);
        let units: usize = candidate
            .components
            .iter()
            .map(|component| component.units)
            .sum();
        assert_eq!(units, candidate.score.units);
    }
    assert!(render_explain_text(&explanation).contains("outer::<closure@2:13>"));
    assert_eq!(explain_report(&report, &target, 99).unwrap().total, 0);
    assert_eq!(
        explain_report(&report, &target, 0).unwrap_err(),
        "--line must be at least 1"
    );
    let elsewhere = ExplainTarget {
        shown: "gone.rs".to_owned(),
        path: "/work/my-project/gone.rs".to_owned(),
        is_file: true,
    };
    assert_eq!(
        explain_report(&report, &elsewhere, 1).unwrap_err(),
        "no analyzed file record matches gone.rs"
    );
    let folder = ExplainTarget {
        shown: "src".to_owned(),
        path: "/work/my-project/src".to_owned(),
        is_file: false,
    };
    assert_eq!(
        explain_report(&report, &folder, 1).unwrap_err(),
        "explain expects a source file, but src is not a file"
    );
}

#[test]
fn compact_views_say_what_they_leave_out() {
    let report = report(&[(
        "main.rs",
        "fn a() {}\nfn b(x: bool) { if x {} }\nfn c() {}\n#[test]\nfn d() {}\n",
    )]);
    let compact = compact_analysis(&report, 1, false, false, SortBy::Score);
    assert_eq!(compact.report_kind, "analysis_compact");
    assert_eq!(compact.returned, 1);
    assert_eq!(compact.total, 3);
    assert_eq!(compact.functions[0].name, "b");
    assert_eq!(compact_analysis(&report, 9, true, false, SortBy::Score).total, 1);
    assert_eq!(compact_analysis(&report, 9, false, true, SortBy::Score).total, 4);
}

#[test]
fn languages_keep_their_own_totals() {
    let report = report(&[
        ("a.rs", "fn a() {}\n"),
        ("b.py", "def b():\n    return 1\n"),
        ("c.ts", "function c() { return 1; }\n"),
    ]);
    let parts = &report.summary.by_language;
    assert_eq!(
        report.summary.burden.total,
        parts.rust.burden.total
            + parts.python.burden.total
            + parts.javascript.burden.total
            + parts.typescript.burden.total
    );
    assert_eq!(report.files[0].language, Language::Rust);
}

#[test]
fn an_empty_contract_is_not_complete() {
    let contract = AnalysisContract::default();
    assert_eq!(contract.version, "");
    assert_eq!(contract.frontend, "");
    assert_eq!(contract.discovery, "");
    assert!(!contract.is_complete());
    assert!(AnalysisContract::current().is_complete());
}
