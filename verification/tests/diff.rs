use kompass::deltas::component_deltas;
use kompass::diff::{compare_reports, CompareOptions};
use kompass::identity::EVIDENCE_VERSION;
use kompass::model::{AnalysisContract, Language, SCHEMA_VERSION};
use kompass::report_input::{
    InputBurden, InputCoverage, InputFile, InputFunction, InputMacroOpacity, InputMetrics,
    InputReport, InputScore, InputSummary,
};

fn report(
    root: &str,
    production: usize,
    functions: Vec<InputFile>,
    invocations: usize,
    source_tokens: usize,
) -> InputReport {
    InputReport {
        tool: "kompass".to_owned(),
        version: "0.1.0".to_owned(),
        model: "test-model".to_owned(),
        schema_version: SCHEMA_VERSION,
        evidence_version: EVIDENCE_VERSION.to_owned(),
        analysis_contract: AnalysisContract::current(),
        root: root.to_owned(),
        summary: InputSummary {
            burden: InputBurden {
                production,
                test: 0,
                total: production,
            },
        },
        coverage: InputCoverage {
            discovered_files: functions.len(),
            analyzed_files: functions.len(),
            failed_files: 0,
            test_files: 0,
            complete: true,
        },
        macro_opacity: InputMacroOpacity {
            invocations,
            source_tokens,
            definitions: 0,
            definition_tokens: 0,
        },
        files: functions,
        errors: Vec::new(),
    }
}

fn file(path: &str, functions: Vec<InputFunction>) -> InputFile {
    InputFile {
        path: path.to_owned(),
        language: Language::Rust,
        burden: InputBurden {
            production: functions.iter().map(|f| f.score.value).sum(),
            test: 0,
            total: functions.iter().map(|f| f.score.value).sum(),
        },
        macro_opacity: InputMacroOpacity {
            invocations: 0,
            source_tokens: 0,
            definitions: 0,
            definition_tokens: 0,
        },
        functions,
    }
}

fn function(name: &str, value: usize, operations: usize) -> InputFunction {
    InputFunction {
        snapshot_id: String::new(),
        declaration_fingerprint: String::new(),
        body_fingerprint: String::new(),
        name: name.to_owned(),
        kind: "function".to_owned(),
        category: "production".to_owned(),
        metrics: InputMetrics {
            expression_operations: operations,
            ..InputMetrics::default()
        },
        score: InputScore {
            value,
            expression_operation_units: operations,
            boundary: 10,
            ..InputScore::default()
        },
    }
}

fn closure(name: &str, value: usize) -> InputFunction {
    let mut function = function(name, value, 0);
    function.kind = "closure".to_owned();
    function
}

#[test]
fn comparison_keeps_added_removed_and_changed_functions_separate() {
    let before = report(
        "/repo",
        20,
        vec![file(
            "src/lib.rs",
            vec![function("stable", 10, 0), function("removed", 10, 0)],
        )],
        2,
        12,
    );
    let after = report(
        "/repo",
        24,
        vec![file(
            "src/lib.rs",
            vec![function("stable", 14, 4), function("added", 10, 0)],
        )],
        1,
        8,
    );

    let comparison = compare_reports(
        "before.json",
        "after.json",
        &before,
        &after,
        CompareOptions::default(),
    )
    .unwrap();

    assert_eq!(comparison.functions.changed.len(), 1);
    assert_eq!(comparison.functions.added.len(), 1);
    assert_eq!(comparison.functions.removed.len(), 1);
    assert_eq!(comparison.functions.changed[0].delta, 4);
    assert_eq!(comparison.burden.production.delta, 4);
    assert_eq!(comparison.macro_opacity.invocations.delta, -1);
    assert_eq!(comparison.macro_opacity.source_tokens.delta, -4);
}

#[test]
fn comparison_matches_closures_across_unrelated_line_shifts() {
    let before = report(
        "/repo",
        10,
        vec![file("src/lib.rs", vec![closure("run::<closure@10:5>", 10)])],
        0,
        0,
    );
    let after = report(
        "/repo",
        10,
        vec![file("src/lib.rs", vec![closure("run::<closure@30:9>", 10)])],
        0,
        0,
    );

    let comparison = compare_reports(
        "before.json",
        "after.json",
        &before,
        &after,
        CompareOptions::default(),
    )
    .unwrap();

    assert!(comparison.functions.changed.is_empty());
    assert!(comparison.functions.added.is_empty());
    assert!(comparison.functions.removed.is_empty());
}

#[test]
fn rejects_model_root_and_incomplete_coverage_mismatches() {
    let mut before = report("/before", 0, vec![file("src/lib.rs", vec![])], 0, 0);
    let mut after = report("/after", 0, vec![file("src/lib.rs", vec![])], 0, 0);
    before.coverage.complete = false;
    after.model = "other-model".to_owned();

    let error = compare_reports(
        "before.json",
        "after.json",
        &before,
        &after,
        CompareOptions::default(),
    )
    .unwrap_err();
    let message = error.message();
    assert!(message.contains("score model differs"));
    assert!(message.contains("analyzed roots differ"));
    assert!(message.contains("before coverage is incomplete"));
}

#[test]
fn sorts_components_by_absolute_delta() {
    let mut before = [0usize; 8];
    let mut after = [0usize; 8];
    before[0] = 10;
    after[0] = 30;
    before[1] = 20;
    after[1] = 0;
    let components = component_deltas(before, after);
    assert_eq!(components[0].name, "boundary");
    assert_eq!(components[0].delta, 20);
    assert_eq!(components[1].name, "control decisions");
    assert_eq!(components[1].delta, -20);
}

#[test]
fn reports_callable_stats_file_burdens_and_possible_redistribution() {
    let before = report(
        "/repo",
        30,
        vec![file(
            "src/lib.rs",
            vec![function("reduced", 20, 0), function("stable", 10, 0)],
        )],
        0,
        0,
    );
    let after = report(
        "/repo",
        30,
        vec![file(
            "src/lib.rs",
            vec![function("reduced", 10, 0), function("added", 20, 0)],
        )],
        0,
        0,
    );

    let comparison = compare_reports(
        "before.json",
        "after.json",
        &before,
        &after,
        CompareOptions::default(),
    )
    .unwrap();

    assert_eq!(comparison.callables.production.count.before, 2);
    assert_eq!(comparison.callables.production.count.after, 2);
    assert_eq!(comparison.callables.production.highest_score.delta, 0);
    assert_eq!(comparison.file_burdens.len(), 1);
    assert_eq!(comparison.file_burdens[0].total.delta, 0);
    assert_eq!(comparison.possible_redistributions.len(), 1);
    let hint = &comparison.possible_redistributions[0];
    assert_eq!(hint.matched_reductions.len(), 1);
    assert_eq!(hint.added_burden, 20);
    assert_eq!(hint.file_total.delta, 0);
    assert!(hint.note.contains("no call or extraction relationship"));
}

#[test]
fn allow_file_changes_keeps_scope_lists_and_warning() {
    let before = report(
        "/repo",
        10,
        vec![file("src/lib.rs", vec![function("old", 10, 0)])],
        0,
        0,
    );
    let after = report(
        "/repo",
        20,
        vec![
            file("src/lib.rs", vec![function("old", 10, 0)]),
            file("src/new.rs", vec![function("new", 10, 0)]),
        ],
        0,
        0,
    );

    let error = compare_reports(
        "before.json",
        "after.json",
        &before,
        &after,
        CompareOptions::default(),
    )
    .unwrap_err();
    assert!(error.message().contains("--allow-file-changes"));

    let before = report(
        "/repo",
        10,
        vec![file("src/lib.rs", vec![function("old", 10, 0)])],
        0,
        0,
    );
    let after = report(
        "/repo",
        20,
        vec![
            file("src/lib.rs", vec![function("old", 10, 0)]),
            file("src/new.rs", vec![function("new", 10, 0)]),
        ],
        0,
        0,
    );
    let comparison = compare_reports(
        "before.json",
        "after.json",
        &before,
        &after,
        CompareOptions {
            allow_file_changes: true,
            ..CompareOptions::default()
        },
    )
    .unwrap();
    assert_eq!(comparison.file_changes.added, vec!["src/new.rs"]);
    assert!(comparison.scope.file_set_changed);
    assert!(
        comparison
            .warnings
            .iter()
            .any(|warning| warning.contains("file set changed"))
    );
}

#[test]
fn exchanged_reports_mirror_each_other() {
    let before = report(
        "/repo",
        40,
        vec![
            file(
                "src/lib.rs",
                vec![
                    function("stable", 10, 0),
                    function("removed", 10, 0),
                    function("gone", 20, 2),
                ],
            ),
            file("src/old.rs", vec![]),
        ],
        2,
        12,
    );
    let after = report(
        "/repo",
        24,
        vec![
            file(
                "src/lib.rs",
                vec![function("stable", 14, 4), function("added", 10, 0)],
            ),
            file("src/new.rs", vec![]),
        ],
        1,
        8,
    );
    let options = CompareOptions {
        allow_file_changes: true,
        ..CompareOptions::default()
    };
    let forth = compare_reports("a.json", "b.json", &before, &after, options).unwrap();
    let back = compare_reports("b.json", "a.json", &after, &before, options).unwrap();
    assert_eq!(forth.burden.production.delta, -16);
    assert_eq!(back.burden.production.delta, 16);
    assert_eq!(back.macro_opacity.invocations.delta, 1);
    assert_eq!(forth.file_changes.added, vec!["src/new.rs"]);
    assert_eq!(back.file_changes.added, forth.file_changes.removed);
    assert_eq!(back.file_changes.removed, forth.file_changes.added);
    let gone: Vec<(&str, i64)> = forth
        .functions
        .removed
        .iter()
        .map(|change| (change.name.as_str(), change.delta))
        .collect();
    let come: Vec<(&str, i64)> = back
        .functions
        .added
        .iter()
        .map(|change| (change.name.as_str(), change.delta))
        .collect();
    assert_eq!(gone, vec![("gone", -20), ("removed", -10)]);
    assert_eq!(come, vec![("gone", 20), ("removed", 10)]);
    assert_eq!(back.functions.removed[0].name, forth.functions.added[0].name);
    assert_eq!(back.functions.changed[0].name, "stable");
    assert_eq!(back.functions.changed[0].delta, -4);
    for (component, other) in forth.components.iter().zip(&back.components) {
        assert_eq!(component.name, other.name);
        assert_eq!(component.delta, -other.delta);
    }
    let same = compare_reports("a.json", "a.json", &before, &before, options).unwrap();
    assert_eq!(same.burden.total.delta, 0);
    assert!(same.functions.changed.is_empty() && same.functions.added.is_empty());
    assert!(same.functions.removed.is_empty() && same.warnings.is_empty());
}
