use kompass::model::Metrics;
use kompass::rust::syntax_tree;
use kompass::score::{measure, measure_closure, score};
use kompass::syntax::SyntaxNode;

fn function(source: &str) -> SyntaxNode {
    let mut file = syntax_tree(source).unwrap().tree.unwrap();
    file.children.remove(0)
}

fn part<'a>(node: &'a SyntaxNode, kind: &str) -> &'a SyntaxNode {
    node.children
        .iter()
        .find(|part| part.kind == kind)
        .unwrap_or_else(|| panic!("no {kind} in {node:?}"))
}

fn metrics(source: &str) -> Metrics {
    let item = function(source);
    let inputs = part(&item, "Signature")
        .children
        .iter()
        .filter(|part| part.kind == "Parameter")
        .count();
    measure(part(&item, "Block"), 1, inputs, inputs)
}

#[test]
fn nesting_separates_flat_and_nested_conditionals() {
    let flat = metrics("fn f(a: bool, b: bool, c: bool) { if a {} if b {} if c {} }");
    let nested = metrics("fn f(a: bool, b: bool, c: bool) { if a { if b { if c {} } } }");

    assert_eq!(flat.branches, nested.branches);
    assert!(nested.max_depth > flat.max_depth);
    assert!(nested.nesting_penalty > flat.nesting_penalty);
    assert!(score(&nested).value > score(&flat).value);
}

#[test]
fn match_arms_and_short_circuiting_are_visible() {
    let measured = metrics(
        "fn f(value: Option<bool>) { match value { Some(a) if a && true => {}, Some(_) => {}, None => {} } }",
    );

    assert_eq!(measured.match_arms, 3);
    assert_eq!(measured.boolean_operators, 1);
    assert_eq!(measured.branches, 1);
    assert_eq!(measured.decisions, 3);
    assert_eq!(measured.nesting_penalty, 1);
}

#[test]
fn let_else_counts_as_a_branch_and_nests_its_diverging_block() {
    let measured = metrics(
        "fn f(value: Option<i32>) { let Some(value) = value else { if true { return; } return; }; if value > 0 {} }",
    );

    assert_eq!(measured.branches, 3);
    assert_eq!(measured.decisions, 3);
    assert!(measured.max_depth >= 2);
}

#[test]
fn mutation_and_testable_context_signals_are_counted() {
    let measured = metrics(
        "fn f(mut value: i32) { value += 1; let closure = || value; let reference = &mut value; unsafe { value += 1; } let _ = closure; let _ = reference; }",
    );

    assert_eq!(measured.mutations, 3);
    assert_eq!(measured.closures, 1);
    assert_eq!(measured.unsafe_blocks, 1);
}

#[test]
fn raw_metrics_have_fixed_structural_counts() {
    let measured = metrics(
        "fn f(mut value: i32, other: i32) { if value > 0 && other > 0 { return; } match value { 0 => {}, _ => {} } for _ in 0..1 { while value > 0 { value -= 1; } } }",
    );

    assert_eq!(measured.parameters, 2);
    assert_eq!(measured.branches, 4);
    assert_eq!(measured.boolean_operators, 1);
    assert_eq!(measured.match_arms, 2);
    assert_eq!(measured.loops, 2);
    assert_eq!(measured.returns, 1);
    assert_eq!(measured.mutations, 1);
    assert_eq!(measured.closures, 0);
    assert_eq!(measured.unsafe_blocks, 0);
    assert_eq!(measured.max_depth, 2);
    assert_eq!(measured.statements, 6);
}

#[test]
fn closure_decisions_keep_the_containing_depth() {
    let measured = metrics(
        "fn f(value: bool) { if value { let check = || if value { true } else { false }; let _ = check; } }",
    );

    assert_eq!(measured.decisions, 1);
    assert_eq!(measured.nesting_penalty, 0);
    assert_eq!(measured.max_depth, 1);
}

#[test]
fn measurement_keeps_closure_body_out_of_parent() {
    let item = function("fn f(value: bool) { if value { let check = || if value { call(); } else { other(); }; check(); } }");
    let measured = measure(part(&item, "Block"), 1, 1, 1);

    assert_eq!(measured.control_decisions, 1);
    assert_eq!(measured.call_sites, 1);
}

#[test]
fn ordinary_and_method_calls_are_counted() {
    let measured = metrics(
        "fn f(value: Vec<i32>) { consume(value.clone()); value.len(); value.push(1); }",
    );
    assert_eq!(measured.call_sites, 4);
}

#[test]
fn expression_operations_count_only_the_scored_nodes() {
    let measured = metrics(
        "fn f(mut value: i32, index: usize, flag: bool) { let record = value; let field = record.abs; let borrowed = &value; let grouped = (value); let indexed = values[index]; let casted = value as i64; let combined = value + 1; let short = flag && flag || flag; let called = call(value); let dereferenced = *borrowed; let negated = -value; let inverted = !flag; value = combined; value += 1; }",
    );

    assert_eq!(measured.expression_operations, 8);
    assert_eq!(score(&measured).expression_operation_units, 8);
}

#[test]
fn expression_operations_keep_nested_callable_bodies_exclusive() {
    let item = function("fn f(value: i32) { let check = || value + 1; let _ = check; }");
    let parent = measure(part(&item, "Block"), 1, 1, 1);
    let holder = function("fn g() { || value + 1 }");
    let closure = part(part(part(&holder, "Block"), "StmtExpr"), "ExprClosure");
    let child = measure_closure(closure.children.last().unwrap(), 1, closure.children.len() - 1);

    assert_eq!(parent.expression_operations, 0);
    assert_eq!(child.expression_operations, 1);
}

#[test]
fn writing_otherwise_keeps_the_score() {
    let plain = "fn f(a: u8, b: u8) -> u8 { match a + b { 0 => a, 1 if b > 2 => b - 1, _ => g(a) } }";
    for other in [
        "fn f(a: u8, b: u8) -> u8 { match (a + (b)) { 0 => a, 1 if (b > 2) => b - 1, _ => (g(a)) } }",
        "fn f(a: u8, b: u8) -> u8 { match a + b { _ => g(a), 1 if b > 2 => b - 1, 0 => a } }",
        "fn f(a: u8, b: u8) -> u8 { let sum = a + b; match sum { 0 => a, 1 if b > 2 => b - 1, _ => g(a) } }",
        "fn f(a: u8, b: u8) -> u8 { let sum: u8 = a + b; match sum { 0 => a, 1 if b > 2 => b - 1, _ => g(a) } }",
        "fn f(a: u8, b: u8) -> u8 { #[allow(unused)] match a + b { 0 => a, 1 if b > 2 => b - 1, _ => g(a) } }",
        "fn h(x: u8, y: u8) -> u8 {\n // why\n match x + y { 0 => x, 1 if y > 2 => y - 1, _ => g(x) }\n}",
    ] {
        assert_eq!(score(&metrics(other)).value, score(&metrics(plain)).value);
        assert_eq!(
            metrics(other).expression_operations,
            metrics(plain).expression_operations
        );
    }
}
