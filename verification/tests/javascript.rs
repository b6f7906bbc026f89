use kompass::javascript::{analyze_file, analyze_source, SourceMode};
use kompass::model::{Category, FileAnalysis, FunctionKind};

fn analyze(source: &str, mode: SourceMode) -> FileAnalysis {
    analyze_source(source, mode, Category::Production).expect("source should parse")
}

#[test]
fn source_modes_are_explicit_and_jsx_is_rejected_in_js() {
    assert_eq!(
        SourceMode::from_path("component.tsx"),
        Ok(SourceMode::TypeScriptJsx)
    );
    assert!(SourceMode::from_path("component.css").is_err());
    assert!(
        analyze_file(
            "component.js",
            "const x = <View />;",
            Category::Production
        )
        .is_err()
    );
    assert!(
        analyze_file(
            "component.jsx",
            "const x = <View />;",
            Category::Production
        )
        .is_ok()
    );
}

#[test]
fn typescript_type_space_is_erased_from_structural_metrics() {
    let typed = analyze(
        "interface Row { value: string }\ntype Maybe = Row | null;\nconst value: number = 1;\n",
        SourceMode::TypeScript,
    );
    let module = typed
        .functions
        .iter()
        .find(|function| function.kind == FunctionKind::ModuleInitializer)
        .expect("runtime variable should create a module initializer");
    assert_eq!(module.metrics.expression_operations, 0);
    assert_eq!(module.metrics.boolean_operators, 0);
    assert_eq!(module.score.units, 10);
}

#[test]
fn jsx_markup_is_free_but_embedded_expressions_are_scored() {
    let file = analyze(
        "const App = () => <View title={ready ? 'yes' : 'no'}>{ready && <Child />}</View>;\n",
        SourceMode::JavaScriptJsx,
    );
    let app = file
        .functions
        .iter()
        .find(|function| function.name == "App")
        .expect("named arrow should be reported");
    assert_eq!(app.kind, FunctionKind::Closure);
    assert_eq!(app.metrics.control_decisions, 1);
    assert_eq!(app.metrics.boolean_operators, 1);
    assert!(app.score.units > 10);
}

#[test]
fn callable_bodies_are_exclusive_and_callbacks_retain_lexical_depth() {
    let file = analyze(
        "function outer(flag) {\n  if (flag) {\n    const callback = () => { if (flag) return 1; return 0; };\n  }\n}\n",
        SourceMode::JavaScript,
    );
    let outer = file
        .functions
        .iter()
        .find(|function| function.name == "outer")
        .expect("outer function should be reported");
    let callback = file
        .functions
        .iter()
        .find(|function| function.name == "outer::callback")
        .expect("callback should be reported");
    assert_eq!(outer.metrics.control_decisions, 1);
    assert_eq!(callback.metrics.control_decisions, 1);
    assert_eq!(callback.metrics.nesting_penalty, 1);
    assert_eq!(outer.metrics.closures, 1);
}

#[test]
fn class_initializers_and_methods_are_separate_units() {
    let file = analyze(
        "class Counter {\n  value = makeValue();\n  static { register(); }\n  increment(step) { if (step) return step + 1; return 0; }\n}\n",
        SourceMode::JavaScript,
    );
    let initializer = file
        .functions
        .iter()
        .find(|function| function.kind == FunctionKind::ClassInitializer)
        .expect("runtime class fields should create an initializer");
    let method = file
        .functions
        .iter()
        .find(|function| function.name == "Counter::increment")
        .expect("method should be reported");
    assert_eq!(initializer.metrics.call_sites, 2);
    assert_eq!(method.metrics.control_decisions, 1);
    assert_eq!(
        file.functions
            .iter()
            .filter(|function| function.kind == FunctionKind::Method)
            .count(),
        1
    );
}

#[test]
fn fingerprints_ignore_comments_and_whitespace() {
    let left = analyze("function f(x) { return x + 1; }", SourceMode::JavaScript);
    let right = analyze(
        "// leading\nfunction f( x ) { /* body */ return x+1; }",
        SourceMode::JavaScript,
    );
    let left = left
        .functions
        .iter()
        .find(|function| function.name == "f")
        .expect("left function");
    let right = right
        .functions
        .iter()
        .find(|function| function.name == "f")
        .expect("right function");
    assert_eq!(left.declaration_fingerprint, right.declaration_fingerprint);
    assert_eq!(left.body_fingerprint, right.body_fingerprint);
    assert!(left.tokens > 0);
}

#[test]
fn evidence_collects_direct_and_method_calls_without_descending_into_children() {
    let file = analyze(
        "function helper(value) { return value; }\nfunction run() { return helper(1) + api.send(2); }\n",
        SourceMode::JavaScript,
    );
    let run_calls = file
        .evidence
        .calls
        .iter()
        .filter(|call| call.caller.name == "run")
        .collect::<Vec<_>>();
    assert_eq!(run_calls.len(), 2);
    assert!(run_calls.iter().any(|call| call.name == "helper"));
    assert!(run_calls.iter().any(|call| call.name == "send"));
    assert_eq!(file.evidence.calls.len(), 2);
}
