use kompass::evidence::Evidence;
use kompass::identity::EVIDENCE_VERSION;
use kompass::model::{
    AnalysisContract, Burden, Category, CategorySummary, Coverage, FileReport, FunctionKind,
    FunctionReport, Language, Location, MacroOpacity, Metrics, Position, Report, ReportScope, Score,
    SortBy, Summary, SCHEMA_VERSION, SCORE_MODEL,
};
use kompass::output::{format_score, render_text};

#[test]
fn text_output_explains_score_and_token_count() {
    let report = Report {
        tool: "kompass".to_owned(),
        version: "0.1.0".to_owned(),
        report_kind: "analysis".to_owned(),
        schema_version: SCHEMA_VERSION,
        scope: ReportScope::default(),
        evidence: Evidence::current(),
        evidence_version: EVIDENCE_VERSION.to_owned(),
        model: SCORE_MODEL.to_owned(),
        analysis_contract: AnalysisContract::current(),
        root: "/tmp/project".to_owned(),
        summary: Summary {
            files: 1,
            code_lines: 4,
            tokens: 12,
            languages: Default::default(),
            by_language: Default::default(),
            production: CategorySummary {
                functions: 1,
                total_score: 50,
                p95_score: 50,
                highest_score: 50,
            },
            test: CategorySummary::default(),
            burden: Burden {
                production: 50,
                total: 50,
                ..Burden::default()
            },
        },
        coverage: Coverage {
            discovered_files: 1,
            analyzed_files: 1,
            complete: true,
            ..Coverage::default()
        },
        macro_opacity: MacroOpacity::default(),
        files: vec![FileReport {
            path: "src/lib.rs".to_owned(),
            language: Language::Rust,
            lines: Default::default(),
            tokens: 12,
            functions: vec![FunctionReport {
                snapshot_id: "test-snapshot".to_owned(),
                declaration_fingerprint: "test-declaration".to_owned(),
                body_fingerprint: "test-body".to_owned(),
                name: "run".to_owned(),
                kind: FunctionKind::Function,
                category: Category::Production,
                location: Location {
                    start: Position { line: 1, column: 1 },
                    end: Position { line: 4, column: 2 },
                },
                lines: 4,
                tokens: 12,
                metrics: Metrics {
                    code_lines: 4,
                    decisions: 2,
                    control_decisions: 2,
                    nesting_penalty: 2,
                    max_depth: 1,
                    macro_calls: 0,
                    branches: 2,
                    ..Metrics::default()
                },
                score: Score {
                    value: 50,
                    units: 50,
                    display: "5.0".to_owned(),
                    decisions: 2,
                    control_decisions: 2,
                    nesting_penalty: 2,
                    boundary: 10,
                    ..Score::default()
                },
            }],
            burden: Burden {
                production: 50,
                total: 50,
                ..Burden::default()
            },
            macro_opacity: MacroOpacity::default(),
        }],
        errors: Vec::new(),
    };

    let text =
        render_text(&report, 10, false, false, SortBy::Score, "5.0", "0.0");
    assert!(text.contains("Most complex production callables"));
    assert!(text.contains("sorted by score"));
    assert!(text.contains("12 Tokens"));
    assert!(text.contains("score: 5.0 ="));

    assert_eq!(report.files[0].functions[0].tokens, 12);

    assert!(text.contains("Repository burden · 5.0 total · 5.0 production · 0.0 tests"));
}

#[test]
fn text_rankings_use_the_selected_key_and_deterministic_ties() {
    let function = |name: &str, score: usize, depth: usize, tokens: usize| FunctionReport {
        snapshot_id: format!("test-{name}"),
        declaration_fingerprint: format!("declaration-{name}"),
        body_fingerprint: format!("body-{name}"),
        name: name.to_owned(),
        kind: FunctionKind::Function,
        category: Category::Production,
        location: Location {
            start: Position { line: 1, column: 1 },
            end: Position { line: 1, column: 2 },
        },
        lines: 1,
        tokens,
        metrics: Metrics {
            max_depth: depth,
            ..Metrics::default()
        },
        score: Score {
            value: score,
            decisions: score,
            ..Score::default()
        },
    };
    let report = Report {
        tool: "kompass".to_owned(),
        version: "0.1.0".to_owned(),
        report_kind: "analysis".to_owned(),
        schema_version: SCHEMA_VERSION,
        scope: ReportScope::default(),
        evidence: Evidence::current(),
        evidence_version: EVIDENCE_VERSION.to_owned(),
        model: SCORE_MODEL.to_owned(),
        analysis_contract: AnalysisContract::current(),
        root: "/tmp/project".to_owned(),
        summary: Summary {
            files: 2,
            production: CategorySummary {
                functions: 3,
                ..CategorySummary::default()
            },
            ..Summary::default()
        },
        coverage: Coverage {
            discovered_files: 2,
            analyzed_files: 2,
            complete: true,
            ..Coverage::default()
        },
        macro_opacity: MacroOpacity::default(),
        files: vec![
            FileReport {
                path: "z.rs".to_owned(),
                language: Language::Rust,
                lines: Default::default(),
                tokens: 20,
                functions: vec![function("zeta", 10, 2, 20)],
                burden: Default::default(),
                macro_opacity: MacroOpacity::default(),
            },
            FileReport {
                path: "a.rs".to_owned(),
                language: Language::Rust,
                lines: Default::default(),
                tokens: 30,
                functions: vec![function("alpha", 1, 2, 30), function("beta", 5, 3, 10)],
                burden: Default::default(),
                macro_opacity: MacroOpacity::default(),
            },
        ],
        errors: Vec::new(),
    };

    let depth =
        render_text(&report, 3, false, false, SortBy::Depth, "0.0", "0.0");
    assert!(depth.contains("production callables · sorted by depth"));
    assert!(depth.find("a.rs:1:1  beta") < depth.find("a.rs:1:1  alpha"));
    assert!(depth.find("a.rs:1:1  alpha") < depth.find("z.rs:1:1  zeta"));

    let size =
        render_text(&report, 3, false, false, SortBy::Size, "0.0", "0.0");
    assert!(size.contains("production callables · sorted by size"));
    assert!(size.find("a.rs:1:1  alpha") < size.find("z.rs:1:1  zeta"));
    assert!(size.find("z.rs:1:1  zeta") < size.find("a.rs:1:1  beta"));
}

#[test]
fn scores_are_shown_as_tenths() {
    assert_eq!(format_score(0), "0.0");
    assert_eq!(format_score(9), "0.9");
    assert_eq!(format_score(143), "14.3");
}
