use kompass::analyze::{analyze, Selection, SourceFile};
use kompass::discover::LanguageFilter;
use kompass::model::{Category, Language, Report};

fn report(source: &str, language: Language) -> Report {
    let extension = match language {
        Language::Rust => "rs",
        _ => "py",
    };
    let files = vec![SourceFile {
        path: format!("/work/main.{extension}"),
        language,
        category: Category::Production,
        source: Ok(source.to_owned()),
    }];
    let selection = Selection {
        language_filter: LanguageFilter::All,
        explicit_file: false,
    };
    analyze("/work", &files, &vec![Vec::new()], selection).unwrap()
}

#[test]
fn rust_edges_are_conservative_and_regions_charge_once() {
    let source = r#"
use std::fmt::Debug;

fn target(value: i32) -> i32 { value + 1 }

fn caller(target: fn(i32) -> i32, value: i32) -> i32 {
    let alias = target;
    let assigned = value;
    target(value) + alias(value) + assigned
}

fn use_target(value: i32) -> i32 { target(value) }

struct Item;
impl Item { fn run(&self) -> i32 { target(1) } }
"#;
    let report = report(source, Language::Rust);
    let calls = &report.evidence.call_graph;
    assert!(calls.coverage.call_sites >= 4);
    assert!(calls.edges.iter().any(|edge| edge.callee_name == "target"
        && edge.resolution == kompass::evidence::CallResolution::Resolved));
    assert!(calls.edges.iter().any(|edge| {
        edge.callee_name == "target"
            && edge.reason == kompass::evidence::CallResolutionReason::Parameter
            && edge.resolution == kompass::evidence::CallResolution::Unresolved
    }));
    assert!(calls.edges.iter().any(|edge| {
        edge.callee_name == "alias" && edge.reason == kompass::evidence::CallResolutionReason::Alias
    }));
    let region = calls
        .regions
        .iter()
        .find(|region| region.root.name.ends_with("use_target"))
        .unwrap();
    assert_eq!(region.unique_units, 2);
    assert!(
        region
            .reachable
            .iter()
            .any(|unit| unit.name.ends_with("target"))
    );
}

#[test]
fn python_edges_mark_parameters_assignments_aliases_and_methods() {
    let source = r#"
from math import sqrt as root

def target(value):
    return value + 1

def caller(target, value):
    alias = target
    assigned = lambda item: item + 2
    target(value)
    alias(value)
    assigned(value)
    value.real()

def use_target(value):
    return target(value)
"#;
    let report = report(source, Language::Python);
    let calls = &report.evidence.call_graph;
    assert!(calls.coverage.call_sites >= 5);
    assert!(calls.edges.iter().any(|edge| {
        edge.callee_name == "target"
            && edge.reason == kompass::evidence::CallResolutionReason::Parameter
            && edge.resolution == kompass::evidence::CallResolution::Unresolved
    }));
    assert!(calls.edges.iter().any(|edge| {
        edge.callee_name == "alias" && edge.reason == kompass::evidence::CallResolutionReason::Alias
    }));
    assert!(calls.edges.iter().any(|edge| {
        edge.callee_name == "real" && edge.reason == kompass::evidence::CallResolutionReason::Method
    }));
    assert!(calls.edges.iter().any(|edge| {
        edge.callee_name == "target"
            && edge.resolution == kompass::evidence::CallResolution::Resolved
    }));
}

#[test]
fn exact_duplicate_evidence_ignores_layout_but_keeps_identifiers_and_literals() {
    let rust = report(
        r#"
fn one(value: i32) -> i32 {
    let first = value + 1 + 2 + 3 + 4 + 5;
    let second = first * 2 + 3 + 4 + 5 + 6;
    let third = second + first + value + 7 + 8 + 9;
    third
}

fn two(value: i32) -> i32 {
    let first = value + 1 + 2 + 3 + 4 + 5; // comments are ignored
    let second = first * 2 + 3 + 4 + 5 + 6;
    let third = second + first + value + 7 + 8 + 9;
    third
}
"#,
        Language::Rust,
    );
    let group = rust.evidence.duplicates.groups.first().unwrap();
    assert_eq!(group.statement_count, 4);
    assert!(group.tokens >= 40);
    assert_eq!(group.occurrences.len(), 2);

    let python = report(
        r#"
def one(value):
    first = value + 1 + 2 + 3 + 4 + 5
    second = first * 2 + 3 + 4 + 5 + 6
    third = second + first + value + 7 + 8 + 9
    return third

def two(value):
    first = value + 1 + 2 + 3 + 4 + 5  # layout and comments do not matter
    second = first * 2 + 3 + 4 + 5 + 6
    third = second + first + value + 7 + 8 + 9
    return third
"#,
        Language::Python,
    );
    let group = python.evidence.duplicates.groups.first().unwrap();
    assert_eq!(group.statement_count, 4);
    assert!(group.tokens >= 40);
    assert_eq!(group.occurrences.len(), 2);
}

#[test]
fn changed_identifier_or_literal_does_not_count_as_exact_duplication() {
    let report = report(
        r#"
fn one(value: i32) -> i32 {
    let first = value + 1 + 2 + 3 + 4 + 5;
    let second = first * 2 + 3 + 4 + 5 + 6;
    let third = second + first + value + 7 + 8 + 9;
    third
}

fn two(value: i32) -> i32 {
    let first = value + 1 + 2 + 3 + 4 + 5;
    let second = first * 2 + 3 + 4 + 5 + 7;
    let third = second + first + value + 7 + 8 + 9;
    third
}
"#,
        Language::Rust,
    );
    assert!(report.evidence.duplicates.groups.is_empty());
}

#[test]
fn a_name_with_two_definitions_stays_ambiguous() {
    let report = report(
        "mod a { pub fn twice() {} }\nmod b { pub fn twice() {} }\nfn caller() { twice(); other(); }\n",
        Language::Rust,
    );
    let calls = &report.evidence.call_graph;
    assert_eq!(calls.coverage.call_sites, 2);
    assert_eq!(calls.coverage.ambiguous, 1);
    assert_eq!(calls.coverage.unresolved, 1);
    assert_eq!(calls.coverage.resolved, 0);
    assert!(calls.edges.iter().all(|edge| edge.callee.is_none()));
    assert!(calls.edges.iter().any(|edge| {
        edge.callee_name == "twice"
            && edge.reason == kompass::evidence::CallResolutionReason::DuplicateDefinition
    }));
}

#[test]
fn reported_duplicates_are_not_parts_of_one_another() {
    let body = "let first = value + 1 + 2 + 3 + 4 + 5; let second = first * 2 + 3 + 4 + 5 + 6; let third = second + first + value + 7 + 8 + 9; let fourth = third * first * second * value;";
    let report = report(
        &format!("fn one(value: i32) {{ {body} }}\nfn two(value: i32) {{ {body} }}\n"),
        Language::Rust,
    );
    let groups = &report.evidence.duplicates.groups;
    assert_eq!(groups.len(), 1);
    assert_eq!(groups[0].statement_count, 4);
    assert_eq!(groups[0].occurrences.len(), 2);
}
