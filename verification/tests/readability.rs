use kompass::model::Category;
use kompass::rust::analyze;

const BEFORE_SOURCE: &str = r#"pub fn guard_clauses(value: i32) -> i32 {
    if value > 0 {
        if value < 10 {
            return value.saturating_mul(2);
        } else {
            return 10;
        }
    } else {
        return 0;
    }
}

pub fn named_intermediates(value: i32) -> i32 {
    value.saturating_mul(3).clamp(-100, 100).saturating_add(7)
}

pub fn useful_extraction(value: i32) -> i32 {
    if value >= 0 {
        if value <= 100 {
            return value.saturating_mul(2);
        }
    }
    0
}

pub fn pointless_wrapper(value: i32) -> i32 {
    value.wrapping_mul(2).wrapping_add(1)
}

pub fn deduplication(value: i32) -> i32 {
    if value >= 0 {
        value.wrapping_mul(2)
    } else {
        value.wrapping_mul(2)
    }
}

pub fn duplicate_left(value: i32) -> i32 {
    if value > 0 {
        value.saturating_mul(2).saturating_add(1)
    } else {
        0
    }
}

pub fn duplicate_right(value: i32) -> i32 {
    if value > 0 {
        value.saturating_mul(2).saturating_add(1)
    } else {
        0
    }
}

pub fn loop_alternative(values: &[i32]) -> i32 {
    let mut total: i32 = 0;
    for value in values {
        total = total.saturating_add(*value);
    }
    total
}

pub fn match_alternative(value: u8) -> i32 {
    if value == 0 {
        10
    } else if value == 1 {
        20
    } else {
        30
    }
}

pub fn formatting(value: i32) -> i32 {
    value.saturating_add(4).saturating_sub(2)
}

pub fn branch_free(value: i64) -> i64 {
    value * 31 + 17
}
"#;

const AFTER_SOURCE: &str = r#"pub fn guard_clauses(value: i32) -> i32 {
    if value <= 0 {
        return 0;
    }
    if value >= 10 {
        return 10;
    }
    value.saturating_mul(2)
}

pub fn named_intermediates(value: i32) -> i32 {
    let scaled = value.saturating_mul(3);
    let bounded = scaled.clamp(-100, 100);
    bounded.saturating_add(7)
}

fn in_range(value: i32) -> bool {
    value >= 0 && value <= 100
}

pub fn useful_extraction(value: i32) -> i32 {
    if in_range(value) {
        value.saturating_mul(2)
    } else {
        0
    }
}

fn apply_offset(value: i32) -> i32 {
    value.wrapping_mul(2).wrapping_add(1)
}

pub fn pointless_wrapper(value: i32) -> i32 {
    apply_offset(value)
}

pub fn deduplication(value: i32) -> i32 {
    value.wrapping_mul(2)
}

fn shared_positive(value: i32) -> i32 {
    if value > 0 {
        value.saturating_mul(2).saturating_add(1)
    } else {
        0
    }
}

pub fn duplicate_left(value: i32) -> i32 {
    shared_positive(value)
}

pub fn duplicate_right(value: i32) -> i32 {
    shared_positive(value)
}

pub fn loop_alternative(values: &[i32]) -> i32 {
    values.iter().copied().fold(0, i32::saturating_add)
}

pub fn match_alternative(value: u8) -> i32 {
    match value {
        0 => 10,
        1 => 20,
        _ => 30,
    }
}

pub fn formatting(value: i32) -> i32 {
    value.saturating_add(4).saturating_sub(2)
}

pub fn branch_free(value: i64) -> i64 {
    let scaled = value * 31;
    scaled + 17
}
"#;

const HOLDOUT_BEFORE_SOURCE: &str = r#"pub fn evaluate(a: bool, b: bool, c: bool) -> Vec<u8> {
    let mut trace = Vec::new();
    trace.push(1);
    if a {
        trace.push(2);
        if b {
            trace.push(3);
            if c {
                trace.push(4);
            }
        }
    }
    trace
}

pub fn classify(value: u8) -> u8 {
    match value.rotate_left(1) & 3 {
        0 => 10,
        1 => 20,
        _ => 30,
    }
}

pub fn transform(value: i16) -> i16 {
    let clamp = |number: i16| {
        if number < 0 {
            0
        } else if number > 10 {
            10
        } else {
            number
        }
    };
    clamp(value)
}

pub fn calculate(a: i16, b: i16, c: i16) -> i16 {
    (a + b) * (c - 1)
}
"#;

const HOLDOUT_AFTER_SOURCE: &str = r#"pub fn evaluate(a: bool, b: bool, c: bool) -> Vec<u8> {
    let mut trace = Vec::new();
    trace.push(1);
    if !a {
        return trace;
    }
    trace.push(2);
    if !b {
        return trace;
    }
    trace.push(3);
    if !c {
        return trace;
    }
    trace.push(4);
    trace
}

pub fn classify(value: u8) -> u8 {
    let tag = value.rotate_left(1) & 3;
    match tag {
        0 => 10,
        1 => 20,
        _ => 30,
    }
}

pub fn transform(value: i16) -> i16 {
    fn clamp(number: i16) -> i16 {
        if number < 0 {
            0
        } else if number > 10 {
            10
        } else {
            number
        }
    }
    clamp(value)
}

pub fn calculate(a: i16, b: i16, c: i16) -> i16 {
    let sum = a + b;
    let multiplier = c - 1;
    let result = sum * multiplier;
    result
}
"#;

#[derive(Clone, Copy, Debug, Default)]
struct Snapshot {
    units: usize,
    tokens: usize,
}

fn function_snapshot(source: &str, name: &str) -> Snapshot {
    let analysis = analyze(source, Category::Production).unwrap();
    let function = analysis
        .functions
        .iter()
        .find(|function| function.name == name)
        .unwrap_or_else(|| panic!("fixture does not contain top-level fn {name}"));
    Snapshot {
        units: function.score.units,
        tokens: function.tokens,
    }
}

/// Sum only the named top-level callables and any callables nested in their
/// bodies.
fn selected_snapshot(source: &str, names: &[&str]) -> Snapshot {
    let analysis = analyze(source, Category::Production).unwrap();
    let mut aggregate = Snapshot::default();
    for function in &analysis.functions {
        let outermost = function.name.split("::").next().unwrap();
        if names.contains(&outermost) {
            aggregate.units += function.score.units;
            aggregate.tokens += function.tokens;
        }
    }
    aggregate
}

#[test]
fn subjective_readability_cases_report_reproducible_score_deltas() {
    for name in [
        "guard_clauses",
        "named_intermediates",
        "deduplication",
        "loop_alternative",
        "match_alternative",
    ] {
        assert!(function_snapshot(BEFORE_SOURCE, name).units >= 10);
        assert!(function_snapshot(AFTER_SOURCE, name).units >= 10);
    }

    let useful_before = selected_snapshot(BEFORE_SOURCE, &["useful_extraction"]);
    let useful_after = selected_snapshot(AFTER_SOURCE, &["in_range", "useful_extraction"]);
    assert!(
        useful_after.units < useful_before.units,
        "the extracted nested subtree should reduce aggregate burden"
    );

    let wrapper_before = selected_snapshot(BEFORE_SOURCE, &["pointless_wrapper"]);
    let wrapper_after = selected_snapshot(AFTER_SOURCE, &["apply_offset", "pointless_wrapper"]);
    assert!(
        wrapper_after.units > wrapper_before.units,
        "a pointless forwarding helper should increase aggregate burden"
    );
    assert_eq!(wrapper_before.units, 16);
    assert_eq!(wrapper_after.units, 30);

    let duplicates_before =
        selected_snapshot(BEFORE_SOURCE, &["duplicate_left", "duplicate_right"]);
    let duplicates_after = selected_snapshot(
        AFTER_SOURCE,
        &["shared_positive", "duplicate_left", "duplicate_right"],
    );
    assert_eq!(duplicates_before.units, 54);
    assert_eq!(duplicates_after.units, 55);
}

#[test]
fn structural_invariants_keep_score_stable() {
    let before_formatting = function_snapshot(BEFORE_SOURCE, "formatting");
    let after_formatting = function_snapshot(AFTER_SOURCE, "formatting");
    assert_eq!(
        before_formatting.units, after_formatting.units,
        "formatting-only change should preserve score"
    );

    let before_names = function_snapshot(BEFORE_SOURCE, "named_intermediates");
    let after_names = function_snapshot(AFTER_SOURCE, "named_intermediates");
    assert_eq!(
        before_names.units, after_names.units,
        "free bindings should remain outside the score"
    );

    let before_arithmetic = function_snapshot(BEFORE_SOURCE, "branch_free");
    let after_arithmetic = function_snapshot(AFTER_SOURCE, "branch_free");
    assert_eq!(
        before_arithmetic.units, after_arithmetic.units,
        "equivalent arithmetic should have the same operation count"
    );
    assert!(after_arithmetic.tokens > before_arithmetic.tokens);
}

#[test]
fn held_out_guard_clauses_preserve_trace_and_reduce_v3_burden() {
    let before_score = function_snapshot(HOLDOUT_BEFORE_SOURCE, "evaluate");
    let after_score = function_snapshot(HOLDOUT_AFTER_SOURCE, "evaluate");
    assert!(after_score.units < before_score.units);
}

#[test]
fn held_out_match_binding_preserves_every_byte_value_and_v3_cost() {
    let before_score = function_snapshot(HOLDOUT_BEFORE_SOURCE, "classify");
    let after_score = function_snapshot(HOLDOUT_AFTER_SOURCE, "classify");
    assert_eq!(before_score.units, after_score.units);
}

#[test]
fn held_out_closure_and_named_helper_have_equal_aggregate_cost() {
    let before_score = selected_snapshot(HOLDOUT_BEFORE_SOURCE, &["transform"]);
    let after_score = selected_snapshot(HOLDOUT_AFTER_SOURCE, &["transform"]);
    assert_eq!(before_score.units, after_score.units);
}

#[test]
fn held_out_named_arithmetic_preserves_checked_range_and_v3_cost() {
    let before_score = function_snapshot(HOLDOUT_BEFORE_SOURCE, "calculate");
    let after_score = function_snapshot(HOLDOUT_AFTER_SOURCE, "calculate");
    assert_eq!(before_score.units, after_score.units);
}
