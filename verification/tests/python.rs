use kompass::model::{Category, FileAnalysis, FunctionKind};
use kompass::python::analyze;
use kompass::spans::{count_tokens_in, TokenRange};
use ruff_python_ast::token::TokenKind;
use ruff_python_ast::{PySourceType, PythonVersion};
use ruff_python_parser::{parse_unchecked, ParseOptions};
use ruff_text_size::Ranged;

fn analyze_source(source: &str) -> FileAnalysis {
    analyze(source, Category::Production).expect("valid Python fixture")
}

#[test]
fn collects_module_class_method_nested_and_lambda_units() {
    let source = r#""""module docs"""
class Box(Base(make())):
    """class docs"""
    kind = "box"
    @staticmethod
    def build(value, /, *, flag=False):
        if flag:
            nested = lambda item: item + value
        def inner(item):
            return item if flag else value
        return nested(value)
"#;
    let file = analyze_source(source);
    let names = file
        .functions
        .iter()
        .map(|function| (function.name.clone(), function.kind.clone()))
        .collect::<Vec<_>>();
    assert!(
        names
            .iter()
            .any(|(_, kind)| *kind == FunctionKind::ModuleInitializer)
    );
    assert!(
        names
            .iter()
            .any(|(_, kind)| *kind == FunctionKind::ClassInitializer)
    );
    assert!(
        names
            .iter()
            .any(|(name, kind)| name.ends_with("Box::build") && *kind == FunctionKind::Method)
    );
    assert!(
        names
            .iter()
            .any(|(name, kind)| name.ends_with("Box::build::inner")
                && *kind == FunctionKind::NestedFunction)
    );
    assert!(names.iter().any(|(_, kind)| *kind == FunctionKind::Lambda));
    let method = file
        .functions
        .iter()
        .find(|function| function.name.ends_with("Box::build"))
        .unwrap();
    assert_eq!(method.metrics.parameters, 2);
    assert_eq!(method.metrics.explicit_parameters, 2);
    assert!(method.metrics.control_decisions >= 1);
}

#[test]
fn declaration_only_modules_and_classes_add_no_initializer_tax() {
    let file = analyze_source(
        "\"\"\"docs\"\"\"\nclass C:\n    def run(self):\n        pass\n\ndef helper():\n    pass\n",
    );
    assert!(file.functions.iter().all(|function| {
        !matches!(
            function.kind,
            FunctionKind::ModuleInitializer | FunctionKind::ClassInitializer
        )
    }));
    assert_eq!(file.functions.len(), 2);
}

#[test]
fn lambda_defaults_keep_nested_callable_bodies_visible() {
    let file = analyze_source("value = lambda x=(lambda y: y if y else 0): x\n");
    let lambdas = file
        .functions
        .iter()
        .filter(|function| function.kind == FunctionKind::Lambda)
        .collect::<Vec<_>>();
    assert_eq!(lambdas.len(), 2);
    assert!(
        lambdas
            .iter()
            .any(|function| function.metrics.control_decisions == 1)
    );
}

#[test]
fn nested_callables_keep_their_lexical_control_depth() {
    let file = analyze_source(
        "if enabled:\n    def choose(value):\n        return 1 if value else 0\n",
    );
    let function = file
        .functions
        .iter()
        .find(|function| function.name == "choose")
        .unwrap();
    assert_eq!(function.metrics.control_decisions, 1);
    assert_eq!(function.metrics.nesting_penalty, 1);
}

#[test]
fn method_receiver_is_excluded_but_staticmethod_receiver_is_not() {
    let file = analyze_source(
        "class C:\n    def run(self, value):\n        return value\n    @staticmethod\n    def make(self, value):\n        return value\n",
    );
    let run = file
        .functions
        .iter()
        .find(|function| function.name.ends_with("::run"))
        .unwrap();
    let make = file
        .functions
        .iter()
        .find(|function| function.name.ends_with("::make"))
        .unwrap();
    assert_eq!(run.metrics.parameters, 2);
    assert_eq!(run.metrics.explicit_parameters, 1);
    assert_eq!(make.metrics.parameters, 2);
    assert_eq!(make.metrics.explicit_parameters, 2);
}

#[test]
fn counts_structural_python_signals() {
    let source = r#"def f(items, value):
    try:
        result = [x + 1 for x in items if x > 0]
        if value and value > 1:
            value += 1
    except ValueError:
        del result
    with open("x") as stream:
        return await call(stream[value])
"#;
    let file = analyze_source(source);
    let function = file
        .functions
        .iter()
        .find(|function| function.name == "f")
        .unwrap();
    assert!(function.metrics.control_decisions >= 4);
    assert_eq!(function.metrics.boolean_operators, 1);
    assert!(function.metrics.loops >= 1);
    assert!(function.metrics.expression_operations >= 7);
    assert!(function.metrics.call_sites >= 2);
    assert!(function.metrics.mutations >= 3);
}

#[test]
fn spans_are_utf8_byte_columns_and_tokens_exclude_layout() {
    let source = "# heading\n\ndef café(value):\n    return value + 1  # tail\n";
    let file = analyze_source(source);
    let function = file
        .functions
        .iter()
        .find(|function| function.name == "café")
        .unwrap();
    assert_eq!(function.location.start.line, 3);
    assert_eq!(function.location.start.column, 1);
    assert!(function.tokens > 0);
    assert_eq!(file.lines.comments, 1);
    assert_eq!(file.lines.blank, 1);
    assert_eq!(file.lines.code, 2);
}

#[test]
fn module_locations_stop_before_a_trailing_newline() {
    let file = analyze_source("value = 1\n");
    let module = file
        .functions
        .iter()
        .find(|function| function.kind == FunctionKind::ModuleInitializer)
        .unwrap();
    assert_eq!(file.lines.total, 1);
    assert_eq!(module.location.end.line, 1);
    assert_eq!(module.lines, 1);
}

#[test]
fn universal_newlines_have_real_line_locations() {
    for source in ["def f():\r    return 1\r", "def f():\r\n    return 1\r\n"] {
        let file = analyze_source(source);
        let function = file
            .functions
            .iter()
            .find(|function| function.name == "f")
            .unwrap();
        assert_eq!(file.lines.total, 2);
        assert_eq!(function.location.start.line, 1);
        assert_eq!(function.location.end.line, 2);
        assert_eq!(function.lines, 2);
    }
}

#[test]
fn strict_errors_and_bom_are_reported() {
    assert!(analyze("def broken(:\n    pass\n", Category::Production).is_err());
    assert!(
        analyze("\u{feff}def f():\n    pass\n", Category::Production)
            .unwrap_err()
            .contains("BOM")
    );
}

#[test]
fn score_contributions_reconcile_for_python_units() {
    let file = analyze_source(
        "def f(value):\n    if value and value > 1:\n        return call(value)\n",
    );
    for function in file.functions {
        assert_eq!(
            function.score.units,
            function
                .score
                .contributions
                .iter()
                .map(|contribution| contribution.units)
                .sum::<usize>()
        );
    }
}

#[test]
fn arguments_are_met_before_keywords() {
    let file = analyze_source("f(a=g(), *h())\nx[i()] = j()\n");
    let calls: Vec<&str> = file
        .evidence
        .calls
        .iter()
        .map(|call| call.name.as_str())
        .collect();
    assert_eq!(calls, vec!["f", "h", "g", "j", "i"]);
}

#[test]
fn arguments_contribute_before_keywords() {
    let file = analyze_source("f(a=1 + 2, *(b and c))\n");
    let starts: Vec<usize> = file.functions[0]
        .score
        .contributions
        .iter()
        .map(|contribution| contribution.location.start.column)
        .collect();
    assert_eq!(starts, vec![1, 14, 5, 1]);
}

#[test]
fn defaults_contribute_before_annotations() {
    let file = analyze_source("f = lambda a=1 + 2, b=3 * 4: a\ndef g(x: h() = i()): pass\n");
    let module = file
        .functions
        .iter()
        .find(|function| function.kind == FunctionKind::ModuleInitializer)
        .unwrap();
    let columns: Vec<(usize, usize)> = module
        .score
        .contributions
        .iter()
        .map(|contribution| {
            (
                contribution.location.start.line,
                contribution.location.start.column,
            )
        })
        .collect();
    let annotation = columns.iter().position(|place| *place == (2, 10));
    let default = columns.iter().position(|place| *place == (2, 16));
    assert!(default.is_some() && default < annotation);
}

#[test]
fn statement_lists_are_numbered_as_they_are_met() {
    let file = analyze_source(
        "def f(x):\n    for y in x:\n        g(y)\n    h(x)\n\ndef k():\n    return lambda z: z\n",
    );
    let numbers: Vec<(&str, usize, usize)> = file
        .evidence
        .statements
        .iter()
        .map(|statement| {
            (
                statement.caller.name.as_str(),
                statement.sequence,
                statement.ordinal,
            )
        })
        .collect();
    assert_eq!(
        numbers,
        vec![
            ("f", 0, 0),
            ("f", 0, 1),
            ("f", 1, 0),
            ("k", 3, 0),
            ("k::<lambda@7:12>", 4, 0),
        ]
    );
}

fn is_counted_token(kind: TokenKind) -> bool {
    !matches!(
        kind,
        TokenKind::Comment
            | TokenKind::Newline
            | TokenKind::NonLogicalNewline
            | TokenKind::Indent
            | TokenKind::Dedent
            | TokenKind::EndOfFile
    )
}

#[test]
fn token_index_matches_the_reference_range_scan() {
    let source = "def f(value):\n    return value + 1  # comment\n";
    let options =
        ParseOptions::from(PySourceType::Python).with_target_version(PythonVersion::PY314);
    let parsed = parse_unchecked(source, options);
    let index: Vec<TokenRange> = parsed
        .tokens()
        .iter()
        .filter(|token| is_counted_token(token.kind()))
        .map(|token| TokenRange {
            start: token.start().to_usize(),
            end: token.end().to_usize(),
        })
        .collect();
    assert_eq!(analyze_source(source).tokens, index.len());
    for start in (0..=source.len()).step_by(3) {
        for end in (start..=source.len()).step_by(5) {
            let reference = parsed
                .tokens()
                .iter()
                .filter(|token| {
                    token.start().to_usize() >= start
                        && token.end().to_usize() <= end
                        && is_counted_token(token.kind())
                })
                .count();
            assert_eq!(
                count_tokens_in(&index, start, end),
                reference,
                "range {start}..{end}"
            );
        }
    }
}
