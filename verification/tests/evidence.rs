use kompass::evidence::{
    build, CallResolution, CallResolutionReason, EvidenceFile, FrontendCall, FrontendEvidence,
    FrontendStatement, LocalCallable,
};
use kompass::model::{Category, FunctionKind, FunctionReport, Language, Location, Position, Score};

fn function(name: &str, category: Category, score: usize, line: usize) -> FunctionReport {
    FunctionReport {
        snapshot_id: format!("snapshot-{name}-{line}"),
        declaration_fingerprint: format!("declaration-{name}"),
        body_fingerprint: format!("body-{name}-{line}"),
        name: name.to_owned(),
        kind: FunctionKind::Function,
        category,
        location: Location {
            start: Position { line, column: 1 },
            end: Position {
                line: line + 4,
                column: 2,
            },
        },
        lines: 5,
        tokens: 1,
        metrics: Default::default(),
        score: Score {
            value: score,
            units: score,
            ..Default::default()
        },
    }
}

fn local(function: &FunctionReport) -> LocalCallable {
    LocalCallable {
        name: function.name.clone(),
        kind: function.kind.clone(),
        category: function.category,
        location: function.location.clone(),
    }
}

#[test]
fn only_unique_direct_names_resolve() {
    let caller = function("caller", Category::Production, 10, 1);
    let target = function("target", Category::Production, 20, 10);
    let frontend = FrontendEvidence {
        calls: vec![
            FrontendCall {
                caller: local(&caller),
                name: "target".to_owned(),
                reason: CallResolutionReason::DirectLocal,
                location: Location::default(),
            },
            FrontendCall {
                caller: local(&caller),
                name: "method".to_owned(),
                reason: CallResolutionReason::Method,
                location: Location::default(),
            },
        ],
        ..Default::default()
    };
    let evidence = build(&[EvidenceFile {
        path: "main.rs".to_owned(),
        language: Language::Rust,
        functions: vec![caller, target],
        frontend,
    }]);
    assert_eq!(evidence.call_graph.coverage.resolved, 1);
    assert_eq!(evidence.call_graph.coverage.unresolved, 1);
    assert!(
        evidence
            .call_graph
            .edges
            .iter()
            .any(|edge| edge.resolution == CallResolution::Resolved)
    );
    assert!(
        evidence
            .call_graph
            .edges
            .iter()
            .any(|edge| edge.reason == CallResolutionReason::Method)
    );
}

#[test]
fn regions_charge_reachable_units_once_and_mark_recursion() {
    let a = function("a", Category::Production, 10, 1);
    let b = function("b", Category::Production, 20, 10);
    let c = function("c", Category::Production, 30, 20);
    let calls = |caller: &FunctionReport, name: &str| FrontendCall {
        caller: local(caller),
        name: name.to_owned(),
        reason: CallResolutionReason::DirectLocal,
        location: Location::default(),
    };
    let evidence = build(&[EvidenceFile {
        path: "main.rs".to_owned(),
        language: Language::Rust,
        functions: vec![a.clone(), b.clone(), c.clone()],
        frontend: FrontendEvidence {
            calls: vec![calls(&a, "b"), calls(&b, "c"), calls(&c, "a")],
            statements: Vec::new(),
        },
    }]);
    let region = evidence
        .call_graph
        .regions
        .iter()
        .find(|region| region.root.name == "a")
        .unwrap();
    assert_eq!(region.unique_units, 3);
    assert_eq!(region.burden, 60);
    assert!(region.recursive);
}

#[test]
fn duplicate_sequences_require_thresholds_and_suppress_contained_groups() {
    let left = function("left", Category::Production, 10, 1);
    let right = function("right", Category::Production, 10, 20);
    let statement =
        |owner: &FunctionReport, sequence: usize, ordinal: usize| FrontendStatement {
            caller: local(owner),
            sequence,
            ordinal,
            location: Location {
                start: Position {
                    line: ordinal + 1,
                    column: 1,
                },
                end: Position {
                    line: ordinal + 1,
                    column: 4,
                },
            },
            tokens: vec!["same".to_owned(); 15],
            scored_signals: 1,
        };
    let mut statements = Vec::new();
    for owner in [&left, &right] {
        for ordinal in 0..3 {
            statements.push(statement(owner, 0, ordinal));
        }
    }
    let evidence = build(&[EvidenceFile {
        path: "main.rs".to_owned(),
        language: Language::Rust,
        functions: vec![left, right],
        frontend: FrontendEvidence {
            calls: Vec::new(),
            statements,
        },
    }]);
    assert_eq!(evidence.duplicates.groups.len(), 1);
    assert_eq!(evidence.duplicates.groups[0].statement_count, 3);
    assert_eq!(evidence.duplicates.groups[0].tokens, 45);
}
