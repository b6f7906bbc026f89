//! What classes of JavaScript and TypeScript source are reported as.
use vstd::prelude::*;
use crate::call_laws::lemma_named_count;
use crate::javascript_units::{
    class_signals, decorator_signals, element_signals, elements_signals, formal_parameters,
    heritage, javascript_units,
};
use crate::model::{FunctionKind, FunctionReport, Metrics};
use crate::spans::LineSpan;
use crate::syntax::{first_named, SyntaxNode};
use crate::tallies::{lemma_measured, lemma_part_under, measured, tally_of};
use crate::text::joined;
use crate::unit_laws::count_kind;
use crate::unit_walk::{ContextView, Part};
use crate::units::{reports, SourceMapView};
use crate::walk::Dialect;

verus! {

proof fn lemma_class_kinds()
    ensures
        "MethodDefinition"@ != "Function"@,
        "MethodDefinition"@ != "ArrowFunctionExpression"@,
        "MethodDefinition"@ != "Class"@,
        "IdentifierName"@ != "PrivateIdentifier"@,
        "StaticBlock"@ != "PropertyDefinition"@,
        "StaticBlock"@ != "AccessorProperty"@,
        "Class"@ != "Function"@,
        "Class"@ != "ArrowFunctionExpression"@,
{
    reveal_strlit("MethodDefinition");
    reveal_strlit("Function");
    reveal_strlit("ArrowFunctionExpression");
    reveal_strlit("Class");
    reveal_strlit("IdentifierName");
    reveal_strlit("PrivateIdentifier");
    reveal_strlit("StaticBlock");
    reveal_strlit("PropertyDefinition");
    reveal_strlit("AccessorProperty");
    assert("MethodDefinition"@.len() == 16 && "Function"@.len() == 8 && "Class"@.len() == 5);
    assert("ArrowFunctionExpression"@.len() == 23);
    assert("IdentifierName"@.len() == 14 && "PrivateIdentifier"@.len() == 17);
    assert("StaticBlock"@.len() == 11 && "PropertyDefinition"@.len() == 18);
    assert("AccessorProperty"@.len() == 16);
}

/// A method with a body is one callable under the name of its key, a private name
/// behind a hash sign. Its parameters are those of its function, and its metrics are
/// those of its body, which starts anew.
pub proof fn a_method_is_one_callable(
    node: SyntaxNode,
    context: ContextView,
    lines: Seq<LineSpan>,
    body: int,
    report: FunctionReport,
    map: SourceMapView,
    inner: Metrics,
)
    requires
        node.named("MethodDefinition"@),
        context.part == Part::Whole,
        node.children@.len() > count_kind(node.children@, "Decorator"@),
        first_named(node.children@.last().children@, "FunctionBody"@, 0) == Some(body),
        0 <= body < node.children@.last().children@.len(),
        reports(report, javascript_units(node, context, lines)[0], map),
        measured(Dialect::JavaScript, node.children@.last().children@[body], inner),
        inner.nesting_penalty < usize::MAX,
        formal_parameters(node.children@.last()).len() <= usize::MAX,
    ensures
        javascript_units(node, context, lines).len() == 1,
        report.kind == FunctionKind::Method,
        report.category == context.category,
        ({
            let key = node.children@[count_kind(node.children@, "Decorator"@) as int];
            report.name@ == joined(
                context.scope.push(
                    if key.named("IdentifierName"@) {
                        key.text@
                    } else if key.named("PrivateIdentifier"@) {
                        "#"@ + key.text@
                    } else {
                        "<computed>"@
                    },
                ),
                "::"@,
            )
        }),
        report.metrics.parameters == formal_parameters(node.children@.last()).len(),
        report.metrics.explicit_parameters == formal_parameters(node.children@.last()).len(),
        tally_of(report.metrics) == tally_of(inner),
{
    lemma_class_kinds();
    lemma_named_count(node.children@, "Decorator"@, node.children@.len());
    assert(node.children@.take(node.children@.len() as int) =~= node.children@);
    let part = node.children@.last().children@[body];
    assert(0 * (tally_of(inner).branches + tally_of(inner).guards) == 0) by (nonlinear_arith);
    assert(tally_of(inner).under(0) == tally_of(inner));
    lemma_part_under(Dialect::JavaScript, part, inner, 0);
    let unit = javascript_units(node, context, lines)[0];
    lemma_measured(
        report.metrics,
        unit.signals,
        report.metrics.code_lines,
        report.metrics.parameters,
        report.metrics.explicit_parameters,
    );
}

/// Whether an element of a class is run when the class is defined, by what it is: a
/// property with a value or with a computed key, or a static block with statements.
pub open spec fn runs_with_class(element: SyntaxNode) -> bool {
    let key = count_kind(element.children@, "Decorator"@);
    ||| (element.named("PropertyDefinition"@) || element.named("AccessorProperty"@)) && (key + 1
        < element.children@.len() || (element.text@ == "true"@ && key < element.children@.len()))
    ||| element.named("StaticBlock"@) && element.children@.len() > 0
}

proof fn lemma_element(element: SyntaxNode, depth: usize)
    ensures
        runs_with_class(element) ==> element_signals(element, depth).len() > 0,
        !element.named("PropertyDefinition"@) && !element.named("AccessorProperty"@)
            && !element.named("StaticBlock"@) ==> element_signals(element, depth).len() == 0,
        !runs_with_class(element) && !element.named("StaticBlock"@) ==> element_signals(
            element,
            depth,
        ).len() == 0,
{
    lemma_class_kinds();
    lemma_named_count(element.children@, "Decorator"@, element.children@.len());
    assert(element.children@.take(element.children@.len() as int) =~= element.children@);
}

proof fn lemma_elements(elements: Seq<SyntaxNode>, depth: usize, count: nat)
    requires
        count <= elements.len(),
    ensures
        elements_signals(elements, depth, count).len() > 0 <==> exists|index: int|
            0 <= index < count && element_signals(#[trigger] elements[index], depth).len() > 0,
    decreases count,
{
    if count > 0 {
        lemma_elements(elements, depth, (count - 1) as nat);
        if exists|index: int|
            0 <= index < count - 1 && element_signals(#[trigger] elements[index], depth).len()
                > 0 {
            let index = choose|index: int|
                0 <= index < count - 1 && element_signals(#[trigger] elements[index], depth).len()
                    > 0;
            assert(element_signals(elements[index], depth).len() > 0);
        }
        assert(element_signals(elements[count - 1], depth).len() >= 0);
    }
}

proof fn lemma_decorators(parts: Seq<SyntaxNode>, depth: usize, count: nat)
    requires
        count <= parts.len(),
        forall|index: int|
            0 <= index < parts.len() ==> !(#[trigger] parts[index]).named("Decorator"@),
    ensures
        decorator_signals(parts, depth, count).len() == 0,
    decreases count,
{
    if count > 0 {
        lemma_decorators(parts, depth, (count - 1) as nat);
        assert(!parts[count - 1].named("Decorator"@));
    }
}

/// A class is a callable of its own where an element of it is run when it is defined.
/// One without decorators, that is derived from none and whose elements are neither
/// properties that are run nor static blocks, is none.
pub proof fn a_class_is_a_callable_where_it_runs_something(
    node: SyntaxNode,
    context: ContextView,
    lines: Seq<LineSpan>,
)
    requires
        node.named("Class"@),
        context.part == Part::Whole,
        node.children@.len() > 0,
    ensures
        ({
            let elements = node.children@.last().children@;
            let units = javascript_units(node, context, lines);
            &&& units.len() <= 1
            &&& units.len() == 1 ==> units[0].kind == FunctionKind::ClassInitializer
                && units[0].parameters == 0 && units[0].explicit.len() == 0
            &&& (exists|index: int|
                0 <= index < elements.len() && runs_with_class(#[trigger] elements[index]))
                ==> units.len() == 1
            &&& heritage(node) is Some ==> units.len() == 1
            &&& heritage(node) is None && (forall|index: int|
                0 <= index < node.children@.len() ==> !(#[trigger] node.children@[index]).named(
                    "Decorator"@,
                )) && (forall|index: int|
                0 <= index < elements.len() ==> !runs_with_class(#[trigger] elements[index])
                    && !elements[index].named("StaticBlock"@)) ==> units.len() == 0
        }),
{
    lemma_class_kinds();
    let parts = node.children@;
    let elements = parts.last().children@;
    lemma_elements(elements, context.depth, elements.len());
    assert forall|index: int| 0 <= index < elements.len() implies (runs_with_class(
        #[trigger] elements[index],
    ) ==> element_signals(elements[index], context.depth).len() > 0) && (!runs_with_class(
        elements[index],
    ) && !elements[index].named("StaticBlock"@) ==> element_signals(
        elements[index],
        context.depth,
    ).len() == 0) by {
        lemma_element(elements[index], context.depth);
    }
    if forall|index: int|
        0 <= index < parts.len() ==> !(#[trigger] parts[index]).named("Decorator"@) {
        lemma_decorators(parts, context.depth, parts.len());
    }
    assert(class_signals(node, context.depth).len() >= 0);
}

}
