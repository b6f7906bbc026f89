//! When what runs outside functions is a callable of its own.
use vstd::prelude::*;
use crate::javascript_units::{callable_initializer, declarator_works, module_unit, module_work};
use crate::kinds::{lemma_javascript_kinds, lemma_module_kinds, lemma_python_kinds};
use crate::model::{Category, FunctionKind, FunctionReport, Metrics};
use crate::python_units::{
    body_statements, charges, ends_in_name, initializer_units, module_units, node_name,
    python_own_units, runs_directly, static_method,
};
use crate::rust_syntax::test_only;
use crate::rust_units::{constant_units, rust_units};
use crate::signals::{Signal, SignalKind};
use crate::spans::LineSpan;
use crate::syntax::{first_named, SyntaxNode};
use crate::tallies::{
    lemma_measured, lemma_part_under, lemma_tallied_concat, lemma_tallied_one, measured,
    tallied_upto, tally_of, Tally,
};
use crate::text::{joined, joined_upto};
use crate::unit_walk::ContextView;
use crate::units::{reports, ByteRange, SourceMapView};
use crate::walk::{expression_signals, signals, Dialect};

verus! {

/// Whether metrics charge for anything: a decision, a Boolean operator, an operation,
/// a call or an arm.
pub open spec fn charged(metrics: Metrics) -> bool {
    metrics.control_decisions > 0 || metrics.boolean_operators > 0
        || metrics.expression_operations > 0 || metrics.call_sites > 0 || metrics.match_arms > 0
}

spec fn charging(kind: SignalKind) -> bool {
    kind == SignalKind::Branch || kind == SignalKind::Guard || kind == SignalKind::BooleanOperator
        || kind == SignalKind::Operation || kind == SignalKind::CallSite || kind
        == SignalKind::MatchArm
}

proof fn lemma_charges(list: Seq<Signal>, count: nat)
    requires
        count <= list.len(),
    ensures
        ({
            let sum = tallied_upto(list, count);
            sum.branches + sum.guards + sum.operators + sum.operations + sum.calls + sum.arms > 0
        }) <==> exists|index: int| 0 <= index < count && charging((#[trigger] list[index]).kind),
    decreases count,
{
    if count > 0 {
        lemma_charges(list, (count - 1) as nat);
        if exists|index: int| 0 <= index < count - 1 && charging((#[trigger] list[index]).kind) {
            let index = choose|index: int|
                0 <= index < count - 1 && charging((#[trigger] list[index]).kind);
            assert(charging(list[index].kind));
        }
        assert(charging(list[count - 1].kind) || !charging(list[count - 1].kind));
    }
}

/// Whether a statement of Python source declares something, passes, or documents.
pub open spec fn declares_only(statement: SyntaxNode) -> bool {
    ||| statement.named("StmtFunctionDef"@)
    ||| statement.named("StmtClassDef"@)
    ||| statement.named("StmtPass"@)
    ||| statement.named("StmtExpr"@) && statement.children@.len() > 0
        && statement.children@[0].named("ExprStringLiteral"@)
}

/// A body that runs when it is met is one callable just where it charges for anything,
/// or where one of its statements does more than declare; it has no parameters.
pub proof fn initializers_do_something(
    node: SyntaxNode,
    full: ByteRange,
    depth: usize,
    name: Seq<char>,
    kind: FunctionKind,
    category: Category,
    body: int,
    inner: Metrics,
)
    requires
        first_named(node.children@, "Body"@, 0) == Some(body),
        0 <= body < node.children@.len(),
        measured(Dialect::Python, node.children@[body], inner),
        tally_of(inner).under(depth as nat).nesting < usize::MAX,
    ensures
        ({
            let units = initializer_units(node, full, depth, name, kind, category);
            let statements = node.children@[body].children@;
            let works = charged(inner) || exists|index: int|
                0 <= index < statements.len() && !declares_only(#[trigger] statements[index]);
            &&& works ==> units.len() == 1
            &&& !works ==> units.len() == 0
            &&& works ==> {
                &&& units[0].name == name
                &&& units[0].kind == kind
                &&& units[0].category == category
                &&& units[0].parameters == 0
                &&& units[0].explicit.len() == 0
                &&& units[0].signals == signals(Dialect::Python, node.children@[body], depth)
            }
        }),
{
    lemma_python_kinds();
    let part = node.children@[body];
    let list = signals(Dialect::Python, part, depth);
    lemma_part_under(Dialect::Python, part, inner, depth);
    lemma_charges(list, list.len());
    assert(charges(list) <==> exists|index: int|
        0 <= index < list.len() && charging((#[trigger] list[index]).kind)) by {
        if charges(list) {
            let index = choose|index: int|
                0 <= index < list.len() && ((#[trigger] list[index]).kind == SignalKind::Branch
                    || list[index].kind == SignalKind::Guard || list[index].kind
                    == SignalKind::BooleanOperator || list[index].kind == SignalKind::Operation
                    || list[index].kind == SignalKind::CallSite || list[index].kind
                    == SignalKind::MatchArm);
            assert(charging(list[index].kind));
        }
    }
    let statements = part.children@;
    assert(body_statements(node) == statements);
    assert forall|index: int| 0 <= index < statements.len() implies declares_only(
        #[trigger] statements[index],
    ) == !runs_directly(statements[index]) by {}
}

/// What the body of a class of Python source does is one callable at most, which is
/// named after the class.
pub proof fn a_class_body_is_named_after_its_class(
    node: SyntaxNode,
    context: ContextView,
    lines: Seq<LineSpan>,
)
    requires
        node.named("StmtClassDef"@),
    ensures
        python_own_units(node, context, lines).len() <= 1,
        python_own_units(node, context, lines).len() == 1 ==> {
            let unit = python_own_units(node, context, lines)[0];
            &&& unit.kind == FunctionKind::ClassInitializer
            &&& unit.name == joined(
                context.scope.push(node_name(node)).push("<class>"@),
                "::"@,
            )
        },
{
    lemma_python_kinds();
}

/// What a module of Python source does is one callable, which comes first, has the
/// name `<module>`, and is the whole file.
pub proof fn a_module_body_comes_first(
    module: SyntaxNode,
    length: usize,
    lines: Seq<LineSpan>,
    category: Category,
)
    ensures
        ({
            let full = ByteRange { start: 0, end: length };
            let own = initializer_units(
                module,
                full,
                0,
                "<module>"@,
                FunctionKind::ModuleInitializer,
                category,
            );
            &&& own.len() <= module_units(module, length, lines, category).len()
            &&& own.len() <= 1
            &&& own.len() == 1 ==> {
                let unit = module_units(module, length, lines, category)[0];
                &&& unit.name == "<module>"@
                &&& unit.kind == FunctionKind::ModuleInitializer
                &&& unit.full == full
            }
        }),
{
    assert(Seq::<Seq<char>>::empty().push("<module>"@) =~= seq!["<module>"@]);
    reveal_with_fuel(joined_upto, 2);
}

/// A method of Python source is static where one of its decorators is the name
/// `staticmethod`, alone or behind a dot.
pub proof fn static_methods_are_decorated(node: SyntaxNode, place: int)
    requires
        0 <= place < node.children@.len(),
        node.children@[place].named("Decorator"@),
        node.children@[place].children@.len() > 0,
    ensures
        ({
            let expression = node.children@[place].children@[0];
            ||| expression.named("ExprName"@) && expression.text@ == "staticmethod"@
            ||| expression.named("ExprAttribute"@) && node_name(expression) == "staticmethod"@
        }) ==> static_method(node),
        static_method(node) ==> exists|other: int|
            0 <= other < node.children@.len() && (#[trigger] node.children@[other]).named(
                "Decorator"@,
            ) && node.children@[other].children@.len() > 0 && {
                let expression = node.children@[other].children@[0];
                ||| expression.text@ == "staticmethod"@
                ||| node_name(expression) == "staticmethod"@
            },
{
    if static_method(node) {
        let other = choose|other: int|
            0 <= other < node.children@.len() && (#[trigger] node.children@[other]).named(
                "Decorator"@,
            ) && node.children@[other].children@.len() > 0 && ends_in_name(
                node.children@[other].children@[0],
                "staticmethod"@,
            );
        assert(node.children@[other].named("Decorator"@));
    }
    assert(node.children@[place].named("Decorator"@));
}

/// A constant or static of Rust source is one callable just where it has a value. Its
/// metrics are those of the value, which is a statement of its own unless it is a
/// block.
pub proof fn a_constant_is_one_callable(
    node: SyntaxNode,
    context: ContextView,
    lines: Seq<LineSpan>,
    report: FunctionReport,
    map: SourceMapView,
    inner: Metrics,
)
    requires
        node.named("ItemConst"@) || node.named("ItemStatic"@) || node.named("ImplConst"@)
            || node.named("TraitConst"@),
        node.children@.len() > 0,
        node.children@.last().kind@.len() >= 4,
        node.children@.last().kind@.take(4) == "Expr"@,
        reports(report, rust_units(node, context, lines)[0], map),
        measured(Dialect::Rust, node.children@.last(), inner),
        inner.nesting_penalty < usize::MAX,
    ensures
        rust_units(node, context, lines).len() == 1,
        report.name@ == joined(context.scope.push(node.text@), "::"@),
        report.kind == if node.named("ItemStatic"@) {
            FunctionKind::StaticInitializer
        } else {
            FunctionKind::ConstInitializer
        },
        report.category == if test_only(node) {
            Category::Test
        } else {
            context.category
        },
        report.metrics.parameters == 0,
        report.metrics.explicit_parameters == 0,
        tally_of(report.metrics) == (Tally {
            statements: if node.children@.last().named("ExprBlock"@) {
                0
            } else {
                1
            },
            ..Tally::none()
        }).plus(tally_of(inner)),
{
    reveal_strlit("Expr");
    reveal_strlit("ItemFn");
    reveal_strlit("ImplFn");
    reveal_strlit("TraitFn");
    reveal_strlit("ItemConst");
    reveal_strlit("ItemStatic");
    reveal_strlit("ImplConst");
    reveal_strlit("TraitConst");
    assert("ItemFn"@.len() == 6 && "ImplFn"@.len() == 6 && "TraitFn"@.len() == 7);
    assert("ItemConst"@.len() == 9 && "ItemStatic"@.len() == 10 && "ImplConst"@.len() == 9);
    assert("TraitConst"@.len() == 10 && "TraitConst"@[0] == 'T' && "ItemStatic"@[0] == 'I');
    let value = node.children@.last();
    let unit = rust_units(node, context, lines)[0];
    let list = signals(Dialect::Rust, value, 0);
    let own = Signal {
        kind: SignalKind::Statement,
        depth: 0,
        start: value.start,
        end: value.end,
    };
    lemma_tallied_one(own);
    lemma_tallied_concat(seq![own], list);
    assert(expression_signals(Dialect::Rust, value, 0) == seq![own] + list);
    lemma_measured(
        inner,
        list,
        inner.code_lines,
        inner.parameters,
        inner.explicit_parameters,
    );
    lemma_measured(
        report.metrics,
        unit.signals,
        report.metrics.code_lines,
        report.metrics.parameters,
        report.metrics.explicit_parameters,
    );
}

/// A constant that only declares a type is no callable.
pub proof fn a_constant_without_value_is_none(node: SyntaxNode, context: ContextView)
    requires
        node.children@.len() > 0 ==> {
            let kind = node.children@.last().kind@;
            kind.len() < 4 || kind.take(4) != "Expr"@
        },
    ensures
        constant_units(node, context).len() == 0,
{
    reveal_strlit("Expr");
}

/// Whether a part of a script declares, imports or says how to read it, and runs
/// nothing.
pub open spec fn script_declares_only(statement: SyntaxNode) -> bool {
    ||| statement.named("Function"@) || statement.named("Class"@)
    ||| statement.named("EmptyStatement"@) || statement.named("Hashbang"@) || statement.named(
        "Directive"@,
    )
    ||| statement.named("ImportDeclaration"@) || statement.named("ExportNamedDeclaration"@)
        || statement.named("ExportFromDeclaration"@) || statement.named("ExportAllDeclaration"@)
    ||| statement.named("TSTypeAliasDeclaration"@) || statement.named("TSInterfaceDeclaration"@)
        || statement.named("TSEnumDeclaration"@) || statement.named("TSModuleDeclaration"@)
        || statement.named("TSGlobalDeclaration"@) || statement.named(
        "TSImportEqualsDeclaration"@,
    )
}

/// A script that only declares functions and classes, imports, or declares types has no
/// callable of its own; one with any other statement has, unless it is a declaration of
/// variables or an export.
pub proof fn a_script_is_a_callable_where_it_runs_something(
    program: SyntaxNode,
    length: usize,
    category: Category,
)
    ensures
        (forall|index: int|
            0 <= index < program.children@.len() ==> script_declares_only(
                #[trigger] program.children@[index],
            )) ==> module_unit(program, length, category).len() == 0,
        (exists|index: int|
            0 <= index < program.children@.len() && runs_in_script(
                #[trigger] program.children@[index],
            )) ==> module_unit(program, length, category).len() == 1,
        module_unit(program, length, category).len() == 1 ==> {
            let unit = module_unit(program, length, category)[0];
            &&& unit.kind == FunctionKind::ModuleInitializer
            &&& unit.name == "<module>"@
            &&& unit.parameters == 0
            &&& unit.explicit.len() == 0
            &&& unit.signals == signals(Dialect::JavaScript, program, 0)
        },
{
    lemma_javascript_kinds();
    lemma_module_kinds();
    let parts = program.children@;
    assert forall|index: int|
        0 <= index < parts.len() && script_declares_only(
            #[trigger] parts[index],
        ) implies !module_work(parts[index]) by {}
    assert forall|index: int|
        0 <= index < parts.len() && runs_in_script(#[trigger] parts[index]) implies module_work(
        parts[index],
    ) by {}
}

/// Whether a statement of a script is run with it, by its kind alone.
pub open spec fn runs_in_script(statement: SyntaxNode) -> bool {
    &&& !script_declares_only(statement)
    &&& !statement.named("VariableDeclaration"@)
    &&& !statement.named("ExportDeclaration"@)
    &&& !statement.named("ExportDefaultDeclaration"@)
}

/// A declaration of variables, exported or not, is run with the script where one of
/// its declarators has an initial value that is no function or class; the wrapping of a
/// value in parentheses or in an assertion of its type changes nothing. A default
/// export is run unless it declares a function or a class.
pub proof fn variables_run_their_values(statement: SyntaxNode)
    ensures
        statement.named("VariableDeclaration"@) ==> (module_work(statement) <==> exists|index: int|
            0 <= index < statement.children@.len() && declarator_works(
                #[trigger] statement.children@[index],
            )),
        statement.named("ExportDeclaration"@) && statement.children@.len() > 0 ==> (module_work(
            statement,
        ) <==> statement.children@[0].named("VariableDeclaration"@) && module_work(
            statement.children@[0],
        )),
        statement.named("ExportDefaultDeclaration"@) && statement.children@.len() > 0 ==> (
        module_work(statement) <==> !statement.children@[0].named("Function"@)
            && !statement.children@[0].named("Class"@)),
{
    lemma_javascript_kinds();
    lemma_module_kinds();
}

/// A declarator runs an initial value unless the value is a function or a class.
pub proof fn values_that_are_callables_do_not_run(
    declarator: SyntaxNode,
    wrapped: SyntaxNode,
)
    ensures
        declarator.children@.len() <= 1 ==> !declarator_works(declarator),
        declarator.children@.len() > 1 && (declarator.children@[1].named(
            "ArrowFunctionExpression"@,
        ) || declarator.children@[1].named("Class"@) || (declarator.children@[1].named(
            "Function"@,
        ) && declarator.children@[1].text@ == "true"@)) ==> !declarator_works(declarator),
        declarator.children@.len() > 1 && wrapped == declarator.children@[1] && (wrapped.named(
            "ParenthesizedExpression"@,
        ) || wrapped.named("TSAsExpression"@) || wrapped.named("TSSatisfiesExpression"@)
            || wrapped.named("TSTypeAssertion"@) || wrapped.named("TSNonNullExpression"@)
            || wrapped.named("TSInstantiationExpression"@)) && wrapped.children@.len() > 0 ==> (
        declarator_works(declarator) <==> !callable_initializer(
            wrapped.children@[0],
        )),
        declarator.children@.len() > 1 && (declarator.children@[1].named("CallExpression"@)
            || declarator.children@[1].named("NewExpression"@) || declarator.children@[1].named(
            "BinaryExpression"@,
        ) || declarator.children@[1].named("LogicalExpression"@) || declarator.children@[1].named(
            "ConditionalExpression"@,
        ) || declarator.children@[1].named("TaggedTemplateExpression"@)) ==> declarator_works(
            declarator,
        ),
{
    lemma_javascript_kinds();
    lemma_module_kinds();
}

}
