use kompass::evidence::CallResolutionReason;
use kompass::identity::{lexical_fingerprint, rust_offset, rust_span_fingerprint};
use kompass::javascript::{analyze_source, SourceMode};
use kompass::model::{Category, ErrorKind, FileAnalysis, FunctionKind, FunctionReport, Language};
use kompass::tokens::{lex, TokenPosition};
use kompass::{javascript, python, rust};

fn script(source: &str) -> FileAnalysis {
    analyze_source(source, SourceMode::TypeScript, Category::Production).unwrap()
}

fn crate_source(source: &str) -> FileAnalysis {
    rust::analyze(source, Category::Production).unwrap()
}

fn named<'a>(file: &'a FileAnalysis, name: &str) -> &'a FunctionReport {
    file.functions
        .iter()
        .find(|function| function.name == name)
        .unwrap_or_else(|| panic!("no {name} in {:?}", names(file)))
}

fn names(file: &FileAnalysis) -> Vec<&str> {
    file.functions
        .iter()
        .map(|function| function.name.as_str())
        .collect()
}

fn fingerprint(source: &str, language: Language) -> String {
    lexical_fingerprint(source, 0, source.len(), language)
}

#[test]
fn layout_is_ignored_and_token_boundaries_are_kept() {
    let plain = fingerprint("fn f(a: u8) -> u8 { a + 1 }", Language::Rust);
    for spaced in [
        "fn f ( a : u8 ) -> u8 {\n    a + 1\n}",
        "fn f(a: u8) -> u8 { /* sum */ a + 1 }",
        "// first\nfn f(a: u8) -> u8 { a + 1 }",
    ] {
        assert_eq!(fingerprint(spaced, Language::Rust), plain);
    }
    assert_ne!(fingerprint("a b", Language::Rust), fingerprint("ab", Language::Rust));
    assert_ne!(
        fingerprint("# a\nb", Language::Rust),
        fingerprint("# a\nb", Language::Python)
    );
}

#[test]
fn positions_lead_back_to_offsets() {
    let source = "one\nt\u{e9}o\nthree";
    let at = |line, column| rust_offset(source, TokenPosition { line, column });
    assert_eq!(at(1, 0), 0);
    assert_eq!(at(2, 0), 4);
    assert_eq!(at(2, 3), 7);
    assert_eq!(at(3, 1), 10);
    assert_eq!(at(0, 2), 2);
    assert_eq!(at(9, 0), source.len());
    assert_eq!(at(3, 99), source.len());
    let span = |start, end| rust_span_fingerprint(source, start, end, Language::Rust);
    assert_eq!(
        span(
            TokenPosition { line: 3, column: 0 },
            TokenPosition { line: 3, column: 5 }
        ),
        fingerprint("three", Language::Rust)
    );
}

#[test]
fn columns_count_bytes() {
    let lexed = lex("let \u{e9} = 1;\n  x").unwrap();
    assert_eq!(lexed.tokens[2].start, TokenPosition { line: 1, column: 7 });
    assert_eq!(lexed.tokens[5].start, TokenPosition { line: 2, column: 2 });
    assert_eq!(
        lexed.tokens_in(
            TokenPosition { line: 1, column: 0 },
            TokenPosition { line: 1, column: 11 }
        ),
        5
    );
    let file = crate_source("const A: &str = \"\u{e9}\"; const B: u8 = 1;\n");
    assert_eq!(named(&file, "B").location.start.column, 23);
}

#[test]
fn an_interpreter_line_moves_nothing() {
    let file = crate_source("#!/usr/bin/env run\nfn main() { work(); }\n");
    let main = named(&file, "main");
    assert_eq!(main.location.start.line, 2);
    assert_eq!(main.location.start.column, 1);
    assert_eq!(main.tokens, lex("fn main() { work(); }").unwrap().total_tokens());
    assert_eq!(
        main.body_fingerprint,
        named(&crate_source("fn main() { work(); }"), "main").body_fingerprint
    );
    let marked = crate_source("\u{feff}fn main() { work(); }\n");
    assert_eq!(named(&marked, "main").location.start.column, 1);
    assert_eq!(named(&marked, "main").body_fingerprint, main.body_fingerprint);
}

#[test]
fn rust_signatures_count_inputs_and_mutations() {
    let file = crate_source(
        "struct S; impl S { fn run(&mut self, mut a: u8, (b, mut c): (u8, u8)) { a += b; } }",
    );
    let run = named(&file, "S::run");
    assert_eq!(run.kind, FunctionKind::Method);
    assert_eq!(run.metrics.parameters, 3);
    assert_eq!(run.metrics.explicit_parameters, 2);
    assert_eq!(run.metrics.mutations, 4);
    assert_eq!(run.metrics.expression_operations, 1);
}

#[test]
fn rust_implementations_are_named_by_their_type() {
    let file = crate_source(
        "impl Tr<u8> for a::B<C> { fn f() {} } impl Tr<u8> for &D { fn f() {} } impl Tr<u8> for (u8, u8) { fn f() {} } impl Tr<u8> for [u8] { fn f() {} }",
    );
    assert_eq!(names(&file), vec!["B::f", "D::f", "tuple2::f", "_::f"]);
}

#[test]
fn rust_closures_keep_the_depth_around_them() {
    let file = crate_source(
        "fn f(x: bool) { for i in 0..9 { if x { let g = |y: u8| if x { h(y) } else { k() }; } } }",
    );
    let closure = file
        .functions
        .iter()
        .find(|function| function.kind == FunctionKind::Closure)
        .unwrap();
    assert_eq!(closure.metrics.control_decisions, 1);
    assert_eq!(closure.metrics.nesting_penalty, 2);
    assert_eq!(closure.metrics.max_depth, 3);
    assert_eq!(closure.metrics.explicit_parameters, 1);
    assert_eq!(closure.score.value, 10 + 10 + 20 + 2 * 2 + 2);
    let outer = named(&file, "f");
    assert_eq!(outer.metrics.control_decisions, 2);
    assert_eq!(outer.metrics.closures, 1);
    assert_eq!(outer.metrics.call_sites, 0);
}

#[test]
fn renaming_and_layout_keep_a_rust_score() {
    let before = crate_source("fn f(a: i32, b: i32) -> i32 { if a > b { a * b } else { g(a)[b] } }");
    let after = crate_source(
        "fn total(first: i32, second: i32) -> i32 {\n    if first > second {\n        first * second\n    } else {\n        other(first)[second]\n    }\n}",
    );
    assert_eq!(before.functions[0].score.value, after.functions[0].score.value);
    assert_eq!(before.functions[0].score.value, 10 + 10 + 3 + 2 + 4);
}

#[test]
fn naming_an_intermediate_value_keeps_a_rust_score() {
    let before = crate_source("fn f(a: i32) -> i32 { (a + 1) * 2 }");
    let after = crate_source("fn f(a: i32) -> i32 { let b = a + 1; b * 2 }");
    assert_eq!(before.functions[0].score.value, after.functions[0].score.value);
    assert_eq!(
        before.functions[0].metrics.statements + 1,
        after.functions[0].metrics.statements
    );
}

#[test]
fn rust_source_that_does_not_parse_or_lex_is_refused() {
    let error = rust::analyze("fn broken( {", Category::Production).unwrap_err();
    assert_eq!(error.kind, ErrorKind::Parse);
    assert_eq!(error.path, None);
    assert!(!error.message.is_empty());
}

#[test]
fn rust_calls_say_how_far_they_resolve() {
    let file = crate_source(
        "use a::b; use a::c as d; fn f(p: fn(), v: Vec<u8>) { let q = p; let r = 1; p(); q(); r(); b(); d(); e(); x::y(); v.len(); (g())(); let h = || p(); }",
    );
    let reason = |name: &str| {
        file.evidence
            .calls
            .iter()
            .find(|call| call.name == name)
            .unwrap_or_else(|| panic!("no call of {name}"))
            .reason
    };
    assert_eq!(reason("p"), CallResolutionReason::Parameter);
    assert_eq!(reason("q"), CallResolutionReason::Alias);
    assert_eq!(reason("r"), CallResolutionReason::Assignment);
    assert_eq!(reason("b"), CallResolutionReason::Import);
    assert_eq!(reason("d"), CallResolutionReason::Alias);
    assert_eq!(reason("e"), CallResolutionReason::DirectLocal);
    assert_eq!(reason("y"), CallResolutionReason::Qualified);
    assert_eq!(reason("len"), CallResolutionReason::Method);
    assert_eq!(reason("<dynamic>"), CallResolutionReason::Dynamic);
    let in_closure = file
        .evidence
        .calls
        .iter()
        .filter(|call| call.caller.kind == FunctionKind::Closure)
        .count();
    assert_eq!(in_closure, 1);
}

#[test]
fn a_byte_order_mark_is_refused_where_it_is_not_supported() {
    let refusal = "UTF-8 BOM is not supported; remove the BOM before analysis";
    let source = "\u{feff}x = 1\n";
    assert_eq!(
        python::analyze(source, Category::Production).unwrap_err(),
        refusal
    );
    assert_eq!(
        python::analyze_file("a.py", source, Category::Production).unwrap_err(),
        refusal
    );
    assert_eq!(
        javascript::analyze(source, SourceMode::JavaScript, Category::Production).unwrap_err(),
        refusal
    );
}

#[test]
fn javascript_modes_come_from_extensions() {
    for (path, mode, text) in [
        ("a.js", SourceMode::JavaScript, "javascript"),
        ("a.jsx", SourceMode::JavaScriptJsx, "javascript-jsx"),
        ("a.ts", SourceMode::TypeScript, "typescript"),
        ("a.tsx", SourceMode::TypeScriptJsx, "typescript-jsx"),
    ] {
        assert_eq!(SourceMode::from_path(path), Ok(mode));
        assert_eq!(mode.serialized(), text);
    }
    assert_eq!(
        SourceMode::from_path("a.css").unwrap_err(),
        "unsupported JavaScript frontend extension .css; expected .js, .jsx, .ts, or .tsx"
    );
    assert_eq!(
        SourceMode::from_path("README").unwrap_err(),
        "JavaScript frontend requires a .js, .jsx, .ts, or .tsx file extension"
    );
    assert!(javascript::analyze_file("a.js", "let x: number = 1;", Category::Production).is_err());
    assert!(javascript::analyze_file("a.ts", "let x: number = 1;", Category::Production).is_ok());
}

#[test]
fn javascript_statements_and_expressions_are_scored_once() {
    let file = script(
        "function f(a, b = 2, ...rest) { for (let i = 0; i < 9; i++) { if (a && b) { g(a[i]); } else if (b) { h?.(a); } else { throw a; } } try { g(); } catch (e) { return e ? 1 : 2; } finally { a[0] = b; } switch (a) { case 1: break; default: g(); } do { a--; } while (a); }",
    );
    let f = named(&file, "f");
    assert_eq!(f.metrics.explicit_parameters, 3);
    assert_eq!(f.metrics.branches, 7);
    assert_eq!(f.metrics.loops, 1);
    assert_eq!(f.metrics.match_arms, 2);
    assert_eq!(f.metrics.boolean_operators, 2);
    assert_eq!(f.metrics.call_sites, 4);
    assert_eq!(f.metrics.returns, 1);
    assert_eq!(f.metrics.mutations, 3);
    assert_eq!(f.metrics.expression_operations, 5);
    assert_eq!(f.metrics.nesting_penalty, 1 + 1 + 1);
}

#[test]
fn javascript_units_are_named_by_where_they_stand() {
    let file = script(
        "export default function () {}\nconst go = () => 1;\nclass A extends make(() => 0) { #p = () => 1; ['k' + 1] = () => 2; static { boot(() => 3); } @d(() => 4) q = 1; m() { function inner() {} } }\nexport const B = class { n() {} };\nlist.map(function each(x) { return x; });\n",
    );
    let found = names(&file);
    for expected in [
        "<module>",
        "<closure@1:16>",
        "go",
        "A::<class>",
        "A::#p",
        "A::<computed>",
        "A::m",
        "A::m::inner",
        "B::n",
        "each",
    ] {
        assert_eq!(
            found.iter().filter(|name| **name == expected).count(),
            1,
            "{expected} in {found:?}"
        );
    }
    // A callback in a decorator is collected once.
    assert_eq!(
        file.functions
            .iter()
            .filter(|function| function.name.contains("<closure@3:"))
            .count(),
        3
    );
    assert_eq!(named(&file, "A::m::inner").kind, FunctionKind::NestedFunction);
}

#[test]
fn javascript_modules_of_declarations_have_no_unit_of_their_own() {
    let file = script("import x from 'y';\nexport const f = (() => 1) as any;\nfunction g() {}\n");
    assert!(!names(&file).contains(&"<module>"));
    let file = script("'use strict';\nexport const f = 1 + 1;\n");
    let module = named(&file, "<module>");
    assert_eq!(module.metrics.expression_operations, 1);
    assert_eq!(module.metrics.statements, 1);
}

#[test]
fn javascript_lines_are_code_comments_or_blank() {
    let file = script("// a\n/* b\n c */\nconst s = '// no'; // yes\n\n`/*`;\r\nx;\n");
    assert_eq!(file.lines.total, 7);
    assert_eq!(file.lines.code, 3);
    assert_eq!(file.lines.comments, 3);
    assert_eq!(file.lines.blank, 1);
}

#[test]
fn javascript_bodies_stay_out_of_what_surrounds_them() {
    let plain = script("function f(a) { a.map(() => 1); }");
    let busy = script("function f(a) { a.map(() => { if (a) { g(a + 1); } }); }");
    let metrics = |file: &FileAnalysis| {
        let mut held = named(file, "f").metrics.clone();
        held.code_lines = 0;
        held
    };
    assert_eq!(metrics(&plain), metrics(&busy));
    assert_eq!(named(&plain, "f").score.value, named(&busy, "f").score.value);
}

#[test]
fn python_bodies_stay_out_of_what_surrounds_them() {
    let read = |source: &str| python::analyze(source, Category::Production).unwrap();
    let plain = read("def f(a):\n    def g():\n        pass\n    return g\n");
    let busy = read("def f(a):\n    def g():\n        if a:\n            h(a + 1)\n    return g\n");
    assert_eq!(named(&plain, "f").score.value, named(&busy, "f").score.value);
    assert!(named(&busy, "f::g").score.value > named(&plain, "f::g").score.value);
}

#[test]
fn javascript_evidence_knows_calls_and_statements() {
    let file = script(
        "function f(a) { new Box(a); a.b(); (a || b)(); const g = () => a(1); return a; }\n",
    );
    let reasons: Vec<(&str, CallResolutionReason)> = file
        .evidence
        .calls
        .iter()
        .map(|call| (call.name.as_str(), call.reason))
        .collect();
    assert_eq!(
        reasons,
        vec![
            ("Box", CallResolutionReason::DirectLocal),
            ("b", CallResolutionReason::Method),
            ("<dynamic>", CallResolutionReason::Dynamic),
            ("a", CallResolutionReason::DirectLocal),
        ]
    );
    let of_f: Vec<usize> = file
        .evidence
        .statements
        .iter()
        .filter(|statement| statement.caller.name == "f")
        .map(|statement| statement.ordinal)
        .collect();
    assert_eq!(of_f, vec![0, 1, 2, 3, 4]);
    let of_g = file
        .evidence
        .statements
        .iter()
        .find(|statement| statement.caller.name == "f::g")
        .unwrap();
    assert_eq!(of_g.tokens, vec!["a", "(", "1", ")"]);
    assert_eq!(of_g.scored_signals, 1);
}

#[test]
fn statement_lists_have_numbers_of_their_own() {
    let file = script("f();\nfunction g() { h(); }\nconst k = () => h();\n");
    let numbers: Vec<(&str, usize)> = file
        .evidence
        .statements
        .iter()
        .map(|statement| (statement.caller.name.as_str(), statement.sequence))
        .collect();
    assert_eq!(
        numbers,
        vec![("<module>", 0), ("<module>", 0), ("g", 1), ("k", 2)]
    );
    let file = crate_source("fn f() { let g = || ({ a(); b() }).c(); if g() { d(); } }");
    let numbers: Vec<(&str, usize, usize)> = file
        .evidence
        .statements
        .iter()
        .map(|statement| {
            (
                statement.caller.name.as_str(),
                statement.sequence,
                statement.ordinal,
            )
        })
        .collect();
    assert_eq!(
        numbers,
        vec![
            ("f", 0, 0),
            ("f", 0, 1),
            ("f", 1, 0),
            ("f::<closure@1:18>", 2, 0),
            ("f::<closure@1:18>", 3, 0),
            ("f::<closure@1:18>", 3, 1),
        ]
    );
}

#[test]
fn rust_paths_are_read_name_by_name() {
    let file = crate_source(
        "struct A;\nimpl crate::B for a::A { fn f(&mut self) { a::g(); h(); <A as B>::k(); a::macro_rules!(); m!(); } }\nmacro_rules! n { () => {} }\n",
    );
    assert_eq!(names(&file), vec!["A::f"]);
    let calls: Vec<(&str, CallResolutionReason)> = file
        .evidence
        .calls
        .iter()
        .map(|call| (call.name.as_str(), call.reason))
        .collect();
    assert_eq!(
        calls,
        vec![
            ("g", CallResolutionReason::Qualified),
            ("h", CallResolutionReason::DirectLocal),
            ("k", CallResolutionReason::Qualified),
        ]
    );
    assert_eq!(file.macro_opacity.invocations, 2);
    assert_eq!(file.macro_opacity.definitions, 1);
    assert_eq!(file.functions[0].metrics.mutations, 1);
}

#[test]
fn calls_are_listed_as_they_are_met() {
    let file = script("first();\nconst f = () => { inner(); };\nlast(() => deep(1));\n");
    let calls: Vec<(&str, &str)> = file
        .evidence
        .calls
        .iter()
        .map(|call| (call.caller.name.as_str(), call.name.as_str()))
        .collect();
    assert_eq!(
        calls,
        vec![
            ("<module>", "first"),
            ("f", "inner"),
            ("<module>", "last"),
            ("<closure@3:6>", "deep"),
        ]
    );
    let nested = script("function f() { a(() => b()); c(); }\n");
    let names: Vec<&str> = nested
        .evidence
        .calls
        .iter()
        .map(|call| call.name.as_str())
        .collect();
    assert_eq!(names, vec!["a", "b", "c"]);
}

#[test]
fn type_statements_belong_to_their_bodies() {
    let source = "type A = number;\nwork();\ninterface B { c: A }\n";
    let file = script(source);
    let module = named(&file, "<module>");
    assert_eq!(
        module.body_fingerprint,
        lexical_fingerprint(source, 0, source.len(), Language::JavaScript)
    );
    assert_eq!(module.metrics.statements, 1);
    let statements: Vec<(usize, usize, &str)> = file
        .evidence
        .statements
        .iter()
        .map(|statement| {
            (
                statement.ordinal,
                statement.scored_signals,
                statement.tokens[0].as_str(),
            )
        })
        .collect();
    assert_eq!(
        statements,
        vec![(0, 0, "type"), (1, 1, "work"), (2, 0, "interface")]
    );
    assert!(script("type A = number;\ninterface B { c: A }\n")
        .functions
        .is_empty());
}
