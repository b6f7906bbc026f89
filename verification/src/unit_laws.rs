//! What is reported of callables.
use vstd::prelude::*;
use crate::javascript_units::{formal_parameters, javascript_units};
use crate::kinds::lemma_javascript_kinds;
use crate::model::{Category, FunctionKind, FunctionReport, Metrics};
use crate::python_units::{parameter_list, python_own_units, static_method};
use crate::rust_syntax::test_only;
use crate::rust_units::{
    implemented_name, input_count, mutable_names, parameter_mutations, parameter_ranges,
    part_mutable_names, parts_context, pattern_ranges, rust_units, signature_mutations,
    signature_parts,
};
use crate::signals::{Signal, SignalKind};
use crate::spans::{tokens_within, LineSpan, TokenRange};
use crate::sums::{total, total_push};
use crate::syntax::{first_named, SyntaxNode};
use crate::tallies::{
    lemma_measured, lemma_part_under, lemma_tallied_concat, lemma_tallied_one, measured, tallied,
    tallied_upto, tally_of, Tally,
};
use crate::text::joined;
use crate::unit_walk::{ContextView, Part, ScopeKind};
use crate::units::{located, reports, SourceMapView, UnitView};
use crate::walk::{expression_signals, signals, Dialect};

verus! {

pub(crate) proof fn lemma_tokens(tokens: Seq<TokenRange>, start: int, end: int, count: nat)
    requires
        count <= tokens.len(),
    ensures
        tokens_within(tokens, start, end, count) == total(
            tokens.take(count as int).map_values(
                |token: TokenRange|
                    if token.start >= start && token.end <= end {
                        1nat
                    } else {
                        0nat
                    },
            ),
        ),
    decreases count,
{
    let inside = |token: TokenRange|
        if token.start >= start && token.end <= end {
            1nat
        } else {
            0nat
        };
    if count == 0 {
        assert(tokens.take(0).map_values(inside) =~= Seq::<nat>::empty());
    } else {
        lemma_tokens(tokens, start, end, (count - 1) as nat);
        let fewer = tokens.take(count - 1).map_values(inside);
        assert(tokens.take(count as int).map_values(inside) =~= fewer.push(
            inside(tokens[count - 1]),
        ));
        total_push(fewer, inside(tokens[count - 1]));
    }
}

/// A report holds the tokens that lie wholly in the callable, the lines from the
/// one that it starts on to the one that it ends on, and a score that charges ten
/// units for it, ten for each decision and for each level of one, five for each
/// Boolean operator, one for each operation, and two for each call, each explicit
/// parameter and each arm.
pub proof fn a_report_charges_for_its_unit(
    report: FunctionReport,
    unit: UnitView,
    map: SourceMapView,
)
    requires
        reports(report, unit, map),
        unit.explicit.len() <= usize::MAX,
    ensures
        report.name@ == unit.name,
        report.kind == unit.kind,
        report.category == unit.category,
        report.tokens == total(
            map.tokens.map_values(
                |token: TokenRange|
                    if token.start >= unit.full.start && token.end <= unit.full.end {
                        1nat
                    } else {
                        0nat
                    },
            ),
        ),
        report.location == located(map, unit.full),
        report.location.start.line <= report.location.end.line && report.location.end.line
            - report.location.start.line < usize::MAX ==> report.lines == report.location.end.line
            - report.location.start.line + 1,
        report.metrics.parameters == unit.parameters,
        report.metrics.explicit_parameters == unit.explicit.len(),
        ({
            let metrics = report.metrics;
            let value = 10 + metrics.control_decisions * 10 + metrics.nesting_penalty * 10
                + metrics.boolean_operators * 5 + metrics.expression_operations
                + metrics.call_sites * 2 + metrics.explicit_parameters * 2 + metrics.match_arms
                * 2;
            value <= usize::MAX ==> report.score.value == value && report.score.units == value
        }),
{
    lemma_tokens(
        map.tokens,
        unit.full.start as int,
        unit.full.end as int,
        map.tokens.len(),
    );
    assert(map.tokens.take(map.tokens.len() as int) =~= map.tokens);
}

/// How many nodes are of a kind.
pub open spec fn count_kind(nodes: Seq<SyntaxNode>, kind: Seq<char>) -> nat {
    total(
        nodes.map_values(
            |node: SyntaxNode|
                if node.named(kind) {
                    1nat
                } else {
                    0nat
                },
        ),
    )
}

proof fn lemma_inputs(parts: Seq<SyntaxNode>, count: nat)
    requires
        count <= parts.len(),
        "Parameter"@ != "Receiver"@,
    ensures
        parameter_ranges(parts, count).len() == count_kind(parts.take(count as int), "Parameter"@),
        input_count(parts, count) == count_kind(parts.take(count as int), "Parameter"@)
            + count_kind(parts.take(count as int), "Receiver"@),
    decreases count,
{
    let one = |kind: Seq<char>|
        |node: SyntaxNode|
            if node.named(kind) {
                1nat
            } else {
                0nat
            };
    if count == 0 {
        assert(parts.take(0).map_values(one("Parameter"@)) =~= Seq::<nat>::empty());
        assert(parts.take(0).map_values(one("Receiver"@)) =~= Seq::<nat>::empty());
    } else {
        lemma_inputs(parts, (count - 1) as nat);
        lemma_one_more(parts, "Parameter"@, count);
        lemma_one_more(parts, "Receiver"@, count);
    }
}

pub(crate) proof fn lemma_one_more(parts: Seq<SyntaxNode>, kind: Seq<char>, count: nat)
    requires
        0 < count <= parts.len(),
    ensures
        count_kind(parts.take(count as int), kind) == count_kind(parts.take(count - 1), kind)
            + if parts[count - 1].named(kind) {
            1nat
        } else {
            0nat
        },
{
    let one = |node: SyntaxNode|
        if node.named(kind) {
            1nat
        } else {
            0nat
        };
    let fewer = parts.take(count - 1).map_values(one);
    assert(parts.take(count as int).map_values(one) =~= fewer.push(one(parts[count - 1])));
    total_push(fewer, one(parts[count - 1]));
}

/// Whether all signals are of mutations.
spec fn mutations_only(list: Seq<Signal>) -> bool {
    forall|index: int| 0 <= index < list.len() ==> (#[trigger] list[index]).kind
        == SignalKind::Mutation
}

proof fn lemma_mutations(list: Seq<Signal>, count: nat)
    requires
        mutations_only(list),
        count <= list.len(),
    ensures
        tallied_upto(list, count) == (Tally { mutations: count, ..Tally::none() }),
    decreases count,
{
    if count > 0 {
        lemma_mutations(list, (count - 1) as nat);
        assert(list[count - 1].kind == SignalKind::Mutation);
    }
}

proof fn lemma_mutable_names(node: SyntaxNode)
    ensures
        mutations_only(mutable_names(node)),
    decreases node, node.children@.len() + 1,
{
    lemma_part_mutable_names(node, node.children@.len());
}

proof fn lemma_part_mutable_names(node: SyntaxNode, count: nat)
    requires
        count <= node.children@.len(),
    ensures
        mutations_only(part_mutable_names(node, count)),
    decreases node, count,
{
    if count > 0 {
        lemma_part_mutable_names(node, (count - 1) as nat);
        lemma_mutable_names(node.children@[count - 1]);
    }
}

proof fn lemma_parameter_mutations(parts: Seq<SyntaxNode>, count: nat)
    requires
        count <= parts.len(),
    ensures
        mutations_only(parameter_mutations(parts, count)),
    decreases count,
{
    if count > 0 {
        lemma_parameter_mutations(parts, (count - 1) as nat);
        lemma_mutable_names(parts[count - 1]);
    }
}

proof fn lemma_signature_mutations(parts: Seq<SyntaxNode>, count: nat)
    requires
        count <= parts.len(),
    ensures
        mutations_only(signature_mutations(parts, count)),
    decreases count,
{
    if count > 0 {
        lemma_signature_mutations(parts, (count - 1) as nat);
        lemma_parameter_mutations(
            parts[count - 1].children@,
            parts[count - 1].children@.len(),
        );
    }
}

proof fn lemma_function_kinds()
    ensures
        "ItemFn"@ != "ImplFn"@,
        "ItemFn"@ != "TraitFn"@,
        "ImplFn"@ != "TraitFn"@,
        "Parameter"@ != "Receiver"@,
{
    reveal_strlit("ItemFn");
    reveal_strlit("ImplFn");
    reveal_strlit("TraitFn");
    reveal_strlit("Parameter");
    reveal_strlit("Receiver");
    assert("ItemFn"@[1] == 't' && "ImplFn"@[1] == 'm');
    assert("ItemFn"@.len() == 6 && "TraitFn"@.len() == 7 && "ImplFn"@.len() == 6);
    assert("Parameter"@.len() == 9 && "Receiver"@.len() == 8);
}

/// A function of Rust source with a body is one callable: its explicit parameters
/// are all its inputs but a receiver, and its metrics are those of its body, with
/// the mutations that its signature allows.
pub proof fn a_rust_function_is_one_callable(
    node: SyntaxNode,
    context: ContextView,
    lines: Seq<LineSpan>,
    signature: int,
    body: int,
    report: FunctionReport,
    map: SourceMapView,
    inner: Metrics,
)
    requires
        node.named("ItemFn"@) || node.named("ImplFn"@) || node.named("TraitFn"@),
        first_named(node.children@, "Signature"@, 0) == Some(signature),
        first_named(node.children@, "Block"@, 0) == Some(body),
        0 <= signature < node.children@.len(),
        0 <= body < node.children@.len(),
        reports(report, rust_units(node, context, lines)[0], map),
        measured(Dialect::Rust, node.children@[body], inner),
    ensures
        rust_units(node, context, lines).len() == 1,
        report.name@ == joined(context.scope.push(node.text@), "::"@),
        report.kind == if node.named("ImplFn"@) {
            FunctionKind::Method
        } else if node.named("TraitFn"@) {
            FunctionKind::TraitMethod
        } else if context.place == ScopeKind::Function {
            FunctionKind::NestedFunction
        } else {
            FunctionKind::Function
        },
        report.category == if test_only(node) {
            Category::Test
        } else {
            context.category
        },
        ({
            let inputs = node.children@[signature].children@;
            let explicit = count_kind(inputs, "Parameter"@);
            let all = explicit + count_kind(inputs, "Receiver"@);
            all <= usize::MAX ==> report.metrics.explicit_parameters == explicit
                && report.metrics.parameters == all
        }),
        inner.nesting_penalty < usize::MAX ==> tally_of(report.metrics) == (Tally {
            mutations: tally_of(inner).mutations + signature_mutations(
                node.children@[signature].children@,
                node.children@[signature].children@.len(),
            ).len(),
            ..tally_of(inner)
        }),
{
    lemma_function_kinds();
    let unit = rust_units(node, context, lines)[0];
    let inputs = signature_parts(node);
    lemma_inputs(inputs, inputs.len());
    assert(inputs.take(inputs.len() as int) =~= inputs);
    let allowed = signature_mutations(inputs, inputs.len());
    lemma_signature_mutations(inputs, inputs.len());
    lemma_mutations(allowed, allowed.len());
    let list = signals(Dialect::Rust, node.children@[body], 0);
    lemma_tallied_concat(list, allowed);
    lemma_measured(
        inner,
        list,
        inner.code_lines,
        inner.parameters,
        inner.explicit_parameters,
    );
    lemma_measured(
        report.metrics,
        list + allowed,
        report.metrics.code_lines,
        report.metrics.parameters,
        report.metrics.explicit_parameters,
    );
}

/// How many nodes are patterns: their kinds start so.
pub open spec fn count_patterns(nodes: Seq<SyntaxNode>) -> nat {
    total(
        nodes.map_values(
            |node: SyntaxNode|
                if node.kind@.len() >= 3 && node.kind@.take(3) == "Pat"@ {
                    1nat
                } else {
                    0nat
                },
        ),
    )
}

proof fn lemma_patterns(parts: Seq<SyntaxNode>, count: nat)
    requires
        count <= parts.len(),
    ensures
        pattern_ranges(parts, count).len() == count_patterns(parts.take(count as int)),
    decreases count,
{
    reveal_strlit("Pat");
    let one = |node: SyntaxNode|
        if node.kind@.len() >= 3 && node.kind@.take(3) == "Pat"@ {
            1nat
        } else {
            0nat
        };
    if count == 0 {
        assert(parts.take(0).map_values(one) =~= Seq::<nat>::empty());
    } else {
        lemma_patterns(parts, (count - 1) as nat);
        let fewer = parts.take(count - 1).map_values(one);
        assert(parts.take(count as int).map_values(one) =~= fewer.push(one(parts[count - 1])));
        total_push(fewer, one(parts[count - 1]));
    }
}

/// A signature allows the mutations that its inputs allow, one after the other: one
/// where a receiver is mutable, and for a parameter one for each mutable name in its
/// pattern.
pub proof fn inputs_allow_their_own_mutations(parts: Seq<SyntaxNode>, part: SyntaxNode)
    ensures
        signature_mutations(parts.push(part), parts.len() + 1).len() == signature_mutations(
            parts,
            parts.len(),
        ).len() + if part.named("Receiver"@) && part.flag {
            1nat
        } else if part.named("Parameter"@) {
            parameter_mutations(part.children@, part.children@.len()).len()
        } else {
            0nat
        },
        part.named("PatIdent"@) ==> parameter_mutations(seq![part], 1).len() == mutable_names(
            part,
        ).len(),
        mutable_names(part).len() == if part.named("PatIdent"@) && part.flag {
            1nat
        } else {
            0nat
        } + total(
            part.children@.map_values(|child: SyntaxNode| mutable_names(child).len()),
        ),
{
    lemma_function_kinds();
    lemma_signature_prefix(parts, parts.push(part), parts.len());
    lemma_names_within(part, part.children@.len());
    assert(part.children@.take(part.children@.len() as int) =~= part.children@);
    if part.named("PatIdent"@) {
        reveal_strlit("PatIdent");
        reveal_strlit("Pat");
        assert(part.kind@.take(3) =~= "Pat"@);
        reveal_with_fuel(parameter_mutations, 2);
    }
}

proof fn lemma_signature_prefix(parts: Seq<SyntaxNode>, longer: Seq<SyntaxNode>, count: nat)
    requires
        count <= parts.len() <= longer.len(),
        forall|index: int| 0 <= index < parts.len() ==> parts[index] == longer[index],
    ensures
        signature_mutations(parts, count) == signature_mutations(longer, count),
    decreases count,
{
    if count > 0 {
        lemma_signature_prefix(parts, longer, (count - 1) as nat);
    }
}

proof fn lemma_names_within(node: SyntaxNode, count: nat)
    requires
        count <= node.children@.len(),
    ensures
        part_mutable_names(node, count).len() == total(
            node.children@.take(count as int).map_values(
                |child: SyntaxNode| mutable_names(child).len(),
            ),
        ),
    decreases count,
{
    let names = |child: SyntaxNode| mutable_names(child).len();
    if count == 0 {
        assert(node.children@.take(0).map_values(names) =~= Seq::<nat>::empty());
    } else {
        lemma_names_within(node, (count - 1) as nat);
        let fewer = node.children@.take(count - 1).map_values(names);
        assert(node.children@.take(count as int).map_values(names) =~= fewer.push(
            names(node.children@[count - 1]),
        ));
        total_push(fewer, names(node.children@[count - 1]));
    }
}

/// What is declared inside something for tests is for tests, and so is what carries an
/// attribute for tests; a function, a module, a trait or an implementation hands its
/// name on to what is inside.
pub proof fn tests_hold_tests(node: SyntaxNode, context: ContextView, lines: Seq<LineSpan>)
    requires
        node.named("ItemFn"@) || node.named("ImplFn"@) || node.named("TraitFn"@)
            || node.named("ItemTrait"@) || node.named("ItemImpl"@),
    ensures
        parts_context(node, context, lines).category == if test_only(node) {
            Category::Test
        } else {
            context.category
        },
        parts_context(node, context, lines).depth == 0,
        parts_context(node, context, lines).scope == context.scope.push(
            if node.named("ItemImpl"@) {
                implemented_name(node)
            } else {
                node.text@
            },
        ),
        node.named("ItemFn"@) || node.named("ImplFn"@) || node.named("TraitFn"@)
            ==> parts_context(node, context, lines).place == ScopeKind::Function,
        node.named("ItemTrait"@) || node.named("ItemImpl"@) ==> parts_context(
            node,
            context,
            lines,
        ).place == context.place,
{
    reveal_strlit("ItemFn");
    reveal_strlit("ImplFn");
    reveal_strlit("TraitFn");
    reveal_strlit("ItemTrait");
    reveal_strlit("ItemImpl");
    reveal_strlit("ItemMod");
    assert("ItemFn"@.len() == 6 && "ImplFn"@.len() == 6 && "TraitFn"@.len() == 7);
    assert("ItemTrait"@.len() == 9 && "ItemImpl"@.len() == 8 && "ItemMod"@.len() == 7);
    assert("ItemFn"@[1] == 't' && "ImplFn"@[1] == 'm');
    assert("TraitFn"@[0] == 'T' && "ItemMod"@[0] == 'I');
}

proof fn lemma_expression(dialect: Dialect, body: SyntaxNode, depth: usize)
    ensures
        tallied(expression_signals(dialect, body, depth)) == (Tally {
            statements: 1,
            ..Tally::none()
        }).plus(tallied(signals(dialect, body, depth))),
{
    let own = Signal { kind: SignalKind::Statement, depth, start: body.start, end: body.end };
    lemma_tallied_one(own);
    lemma_tallied_concat(seq![own], signals(dialect, body, depth));
}

/// A closure of Rust source is one callable: each of its patterns is an explicit
/// parameter, and its metrics are those of its body, as deep as the closure stands,
/// with one statement where the body is no block.
pub proof fn a_rust_closure_is_one_callable(
    node: SyntaxNode,
    context: ContextView,
    lines: Seq<LineSpan>,
    report: FunctionReport,
    map: SourceMapView,
    inner: Metrics,
)
    requires
        node.named("ExprClosure"@),
        node.children@.len() > 0,
        reports(report, rust_units(node, context, lines)[0], map),
        measured(Dialect::Rust, node.children@.last(), inner),
        tally_of(inner).under(context.depth as nat).nesting < usize::MAX,
    ensures
        rust_units(node, context, lines).len() == 1,
        report.kind == FunctionKind::Closure,
        report.category == context.category,
        ({
            let patterns = count_patterns(node.children@);
            patterns <= usize::MAX ==> report.metrics.parameters == patterns
                && report.metrics.explicit_parameters == patterns
        }),
        tally_of(report.metrics) == (Tally {
            statements: if node.children@.last().named("ExprBlock"@) {
                0
            } else {
                1
            },
            ..Tally::none()
        }).plus(tally_of(inner).under(context.depth as nat)),
{
    reveal_strlit("ExprClosure");
    reveal_strlit("ItemFn");
    reveal_strlit("ImplFn");
    reveal_strlit("TraitFn");
    reveal_strlit("ItemConst");
    reveal_strlit("ItemStatic");
    reveal_strlit("ImplConst");
    reveal_strlit("TraitConst");
    assert("ExprClosure"@[0] == 'E' && "ItemFn"@[0] == 'I' && "ImplFn"@[0] == 'I' && "TraitFn"@[0]
        == 'T' && "ItemConst"@[0] == 'I' && "ItemStatic"@[0] == 'I' && "ImplConst"@[0] == 'I'
        && "TraitConst"@[0] == 'T');
    let body = node.children@.last();
    lemma_patterns(node.children@, node.children@.len());
    assert(node.children@.take(node.children@.len() as int) =~= node.children@);
    lemma_part_under(Dialect::Rust, body, inner, context.depth);
    lemma_expression(Dialect::Rust, body, context.depth);
    let unit = rust_units(node, context, lines)[0];
    lemma_measured(
        report.metrics,
        unit.signals,
        report.metrics.code_lines,
        report.metrics.parameters,
        report.metrics.explicit_parameters,
    );
}

/// A function of Python source is one callable: its explicit parameters are all its
/// parameters, but for the receiver of a method, and its metrics are those of its
/// body, as deep as the function stands.
pub proof fn a_python_function_is_one_callable(
    node: SyntaxNode,
    context: ContextView,
    lines: Seq<LineSpan>,
    body: int,
    report: FunctionReport,
    map: SourceMapView,
    inner: Metrics,
)
    requires
        node.named("StmtFunctionDef"@),
        first_named(node.children@, "Body"@, 0) == Some(body),
        0 <= body < node.children@.len(),
        reports(report, python_own_units(node, context, lines)[0], map),
        measured(Dialect::Python, node.children@[body], inner),
        tally_of(inner).under(context.depth as nat).nesting < usize::MAX,
        parameter_list(node).len() <= usize::MAX,
    ensures
        python_own_units(node, context, lines).len() == 1,
        report.kind == match context.place {
            ScopeKind::Class => FunctionKind::Method,
            ScopeKind::Function => FunctionKind::NestedFunction,
            ScopeKind::Module => FunctionKind::Function,
        },
        report.category == context.category,
        report.metrics.parameters == parameter_list(node).len(),
        ({
            let parameters = parameter_list(node);
            let first = crate::python_units::parameter_name(parameters[0]);
            let received = context.place == ScopeKind::Class && parameters.len() > 0 && (first
                == "self"@ || first == "cls"@) && !static_method(node);
            report.metrics.explicit_parameters == parameters.len() - if received {
                1int
            } else {
                0int
            }
        }),
        tally_of(report.metrics) == tally_of(inner).under(context.depth as nat),
{
    lemma_part_under(Dialect::Python, node.children@[body], inner, context.depth);
    let unit = python_own_units(node, context, lines)[0];
    lemma_measured(
        report.metrics,
        unit.signals,
        report.metrics.code_lines,
        report.metrics.parameters,
        report.metrics.explicit_parameters,
    );
}

/// A lambda of Python source is one callable: all its parameters are explicit, and
/// its metrics are those of its body, as deep as the lambda stands, with one
/// statement.
pub proof fn a_lambda_is_one_callable(
    node: SyntaxNode,
    context: ContextView,
    lines: Seq<LineSpan>,
    report: FunctionReport,
    map: SourceMapView,
    inner: Metrics,
)
    requires
        node.named("ExprLambda"@),
        node.children@.len() > 0,
        reports(report, python_own_units(node, context, lines)[0], map),
        measured(Dialect::Python, node.children@.last(), inner),
        tally_of(inner).under(context.depth as nat).nesting < usize::MAX,
        parameter_list(node).len() <= usize::MAX,
    ensures
        python_own_units(node, context, lines).len() == 1,
        report.kind == FunctionKind::Lambda,
        report.metrics.parameters == parameter_list(node).len(),
        report.metrics.explicit_parameters == parameter_list(node).len(),
        tally_of(report.metrics) == (Tally { statements: 1, ..Tally::none() }).plus(
            tally_of(inner).under(context.depth as nat),
        ),
{
    crate::kinds::lemma_python_kinds();
    let body = node.children@.last();
    lemma_part_under(Dialect::Python, body, inner, context.depth);
    lemma_expression(Dialect::Python, body, context.depth);
    let unit = python_own_units(node, context, lines)[0];
    lemma_measured(
        report.metrics,
        unit.signals,
        report.metrics.code_lines,
        report.metrics.parameters,
        report.metrics.explicit_parameters,
    );
}

/// A function of JavaScript or TypeScript source with a body is one callable: all
/// its formal parameters are explicit. Its metrics are those of its body, which
/// starts anew where the function is declared, and else is as deep as the function
/// stands.
pub proof fn a_script_function_is_one_callable(
    node: SyntaxNode,
    context: ContextView,
    lines: Seq<LineSpan>,
    body: int,
    report: FunctionReport,
    map: SourceMapView,
    inner: Metrics,
)
    requires
        node.named("Function"@),
        context.part == Part::Whole,
        first_named(node.children@, "FunctionBody"@, 0) == Some(body),
        0 <= body < node.children@.len(),
        reports(report, javascript_units(node, context, lines)[0], map),
        measured(Dialect::JavaScript, node.children@[body], inner),
        tally_of(inner).under(context.depth as nat).nesting < usize::MAX,
        formal_parameters(node).len() <= usize::MAX,
    ensures
        javascript_units(node, context, lines).len() == 1,
        report.kind == if node.text@ == "true"@ {
            FunctionKind::Closure
        } else if context.place == ScopeKind::Function {
            FunctionKind::NestedFunction
        } else {
            FunctionKind::Function
        },
        report.metrics.parameters == formal_parameters(node).len(),
        report.metrics.explicit_parameters == formal_parameters(node).len(),
        node.text@ == "true"@ ==> tally_of(report.metrics) == tally_of(inner).under(
            context.depth as nat,
        ),
        node.text@ != "true"@ ==> tally_of(report.metrics) == tally_of(inner),
{
    let part = node.children@[body];
    assert(context.depth * (tally_of(inner).branches + tally_of(inner).guards) >= 0)
        by (nonlinear_arith);
    assert(0 * (tally_of(inner).branches + tally_of(inner).guards) == 0) by (nonlinear_arith);
    lemma_part_under(Dialect::JavaScript, part, inner, context.depth);
    lemma_part_under(Dialect::JavaScript, part, inner, 0);
    assert(tally_of(inner).under(0) == tally_of(inner));
    let unit = javascript_units(node, context, lines)[0];
    lemma_measured(
        report.metrics,
        unit.signals,
        report.metrics.code_lines,
        report.metrics.parameters,
        report.metrics.explicit_parameters,
    );
}

/// An arrow function is one callable: all its formal parameters are explicit, and
/// its metrics are those of its body, as deep as the function stands, with one
/// statement where the body is an expression.
pub proof fn an_arrow_function_is_one_callable(
    node: SyntaxNode,
    context: ContextView,
    lines: Seq<LineSpan>,
    report: FunctionReport,
    map: SourceMapView,
    inner: Metrics,
)
    requires
        node.named("ArrowFunctionExpression"@),
        context.part == Part::Whole,
        node.children@.len() > 0,
        reports(report, javascript_units(node, context, lines)[0], map),
        measured(Dialect::JavaScript, node.children@.last(), inner),
        tally_of(inner).under(context.depth as nat).nesting < usize::MAX,
        formal_parameters(node).len() <= usize::MAX,
    ensures
        javascript_units(node, context, lines).len() == 1,
        report.kind == FunctionKind::Closure,
        report.metrics.parameters == formal_parameters(node).len(),
        report.metrics.explicit_parameters == formal_parameters(node).len(),
        tally_of(report.metrics) == (Tally {
            statements: if node.children@.last().named("FunctionBody"@) {
                0
            } else {
                1
            },
            ..Tally::none()
        }).plus(tally_of(inner).under(context.depth as nat)),
{
    lemma_javascript_kinds();
    let body = node.children@.last();
    lemma_part_under(Dialect::JavaScript, body, inner, context.depth);
    lemma_expression(Dialect::JavaScript, body, context.depth);
    let unit = javascript_units(node, context, lines)[0];
    lemma_measured(
        report.metrics,
        unit.signals,
        report.metrics.code_lines,
        report.metrics.parameters,
        report.metrics.explicit_parameters,
    );
}

}
