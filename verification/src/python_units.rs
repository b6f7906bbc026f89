//! The callable units of Python source.
use vstd::prelude::*;
use vstd::string::StringExecFns;
use crate::model::{Category, FunctionKind};
use crate::python_syntax::{list_python_steps, python_steps};
use crate::signals::{Signal, SignalKind};
use crate::spans::{position_at, LineSpan, LineTable};
use crate::syntax::{find_named, first_named, SyntaxNode};
use crate::text::{decimal, push_decimal, same_text, texts};
use crate::unit_walk::{
    collect_walk, outermost, push_steps, push_visit, visit_views, visits_of, walk_units, Context,
    ContextView, Part, ScopeKind, UnitVisit, UnitVisitView,
};
use crate::units::{
    body_range, declaration_range, list_ranges, node_range, push_unit, qualified, qualified_name,
    ranges, span_declaration, span_of, unit_views, with_scope, ByteRange, Unit, UnitView,
};
use crate::walk::{collect_expression, collect_signals, expression_signals, signals, Dialect};

verus! {

/// What a node names: the text of its first identifier.
pub open spec fn node_name(node: SyntaxNode) -> Seq<char> {
    match first_named(node.children@, "Identifier"@, 0) {
        Some(index) => node.children@[index].text@,
        None => Seq::empty(),
    }
}

pub(crate) fn name_of_node<'a>(node: &'a SyntaxNode) -> (name: &'a str)
    ensures
        name@ == node_name(*node),
{
    match find_named(&node.children, "Identifier") {
        Some(index) => node.children[index].text.as_str(),
        None => {
            proof {
                reveal_strlit("");
                assert(""@ =~= Seq::<char>::empty());
            }
            ""
        },
    }
}

/// The parameters of a callable.
pub open spec fn parameter_list(node: SyntaxNode) -> Seq<SyntaxNode> {
    match first_named(node.children@, "Parameters"@, 0) {
        Some(index) => node.children@[index].children@,
        None => Seq::empty(),
    }
}

/// The name of a parameter.
pub open spec fn parameter_name(parameter: SyntaxNode) -> Seq<char> {
    match first_named(parameter.children@, "Parameter"@, 0) {
        Some(index) => node_name(parameter.children@[index]),
        None => node_name(parameter),
    }
}

/// Whether an expression is a name, or an attribute of that name.
pub open spec fn ends_in_name(expression: SyntaxNode, name: Seq<char>) -> bool {
    ||| expression.named("ExprName"@) && expression.text@ == name
    ||| expression.named("ExprAttribute"@) && node_name(expression) == name
}

/// Whether a function is decorated as a static method.
pub open spec fn static_method(node: SyntaxNode) -> bool {
    exists|index: int|
        0 <= index < node.children@.len() && (#[trigger] node.children@[index]).named("Decorator"@)
            && node.children@[index].children@.len() > 0 && ends_in_name(
            node.children@[index].children@[0],
            "staticmethod"@,
        )
}

/// Whether the first parameter of a function is a receiver.
pub open spec fn has_receiver(node: SyntaxNode, kind: FunctionKind) -> bool {
    let parameters = parameter_list(node);
    &&& kind == FunctionKind::Method
    &&& !static_method(node)
    &&& parameters.len() > 0
    &&& parameter_name(parameters[0]) == "self"@ || parameter_name(parameters[0]) == "cls"@
}

/// The parameters of a function that count.
pub open spec fn explicit_ranges(node: SyntaxNode, kind: FunctionKind) -> Seq<ByteRange> {
    let parameters = parameter_list(node);
    if has_receiver(node, kind) {
        ranges(parameters.skip(1))
    } else {
        ranges(parameters)
    }
}

/// The kind of a function by what it stands in.
pub open spec fn function_kind(kind: ScopeKind) -> FunctionKind {
    match kind {
        ScopeKind::Class => FunctionKind::Method,
        ScopeKind::Function => FunctionKind::NestedFunction,
        ScopeKind::Module => FunctionKind::Function,
    }
}

/// The statements of a node's body.
pub open spec fn body_statements(node: SyntaxNode) -> Seq<SyntaxNode> {
    match first_named(node.children@, "Body"@, 0) {
        Some(index) => node.children@[index].children@,
        None => Seq::empty(),
    }
}

/// The signals of a node's body.
pub open spec fn body_signals(node: SyntaxNode, depth: usize) -> Seq<Signal> {
    match first_named(node.children@, "Body"@, 0) {
        Some(index) => signals(Dialect::Python, node.children@[index], depth),
        None => Seq::empty(),
    }
}

/// The unit of a function.
pub open spec fn function_unit(
    node: SyntaxNode,
    depth: usize,
    scope: Seq<Seq<char>>,
    kind: ScopeKind,
    category: Category,
) -> UnitView {
    let full = node_range(node);
    let body = body_range(body_statements(node), full);
    UnitView {
        name: qualified(scope, node_name(node)),
        kind: function_kind(kind),
        category,
        full,
        declaration: declaration_range(full, body),
        body,
        parameters: parameter_list(node).len() as usize,
        explicit: explicit_ranges(node, function_kind(kind)),
        signals: body_signals(node, depth),
    }
}

/// Whether signals come to more than the boundary of a unit.
pub open spec fn charges(list: Seq<Signal>) -> bool {
    exists|index: int|
        0 <= index < list.len() && ((#[trigger] list[index]).kind == SignalKind::Branch
            || list[index].kind == SignalKind::Guard || list[index].kind
            == SignalKind::BooleanOperator || list[index].kind == SignalKind::Operation
            || list[index].kind == SignalKind::CallSite || list[index].kind
            == SignalKind::MatchArm)
}

/// Whether a statement does something when its body is run, beyond declaring.
pub open spec fn runs_directly(statement: SyntaxNode) -> bool {
    if statement.named("StmtFunctionDef"@) || statement.named("StmtClassDef"@) || statement.named(
        "StmtPass"@,
    ) {
        false
    } else if statement.named("StmtExpr"@) {
        !(statement.children@.len() > 0 && statement.children@[0].named("ExprStringLiteral"@))
    } else {
        true
    }
}

/// Whether a body that runs when it is met is worth a unit.
pub open spec fn has_work(statements: Seq<SyntaxNode>, list: Seq<Signal>) -> bool {
    charges(list) || exists|index: int|
        0 <= index < statements.len() && runs_directly(#[trigger] statements[index])
}

/// The unit of a body that runs when it is met, where it does anything.
pub open spec fn initializer_units(
    node: SyntaxNode,
    full: ByteRange,
    depth: usize,
    name: Seq<char>,
    kind: FunctionKind,
    category: Category,
) -> Seq<UnitView> {
    let list = body_signals(node, depth);
    if has_work(body_statements(node), list) {
        seq![
            UnitView {
                name,
                kind,
                category,
                full,
                declaration: full,
                body: body_range(body_statements(node), full),
                parameters: 0,
                explicit: Seq::empty(),
                signals: list,
            },
        ]
    } else {
        Seq::empty()
    }
}

/// How a lambda is named: by where it stands.
pub open spec fn lambda_label(node: SyntaxNode, lines: Seq<LineSpan>) -> Seq<char> {
    let start = position_at(lines, node.start);
    "<lambda@"@ + decimal(start.line as nat) + ":"@ + decimal(start.column as nat) + ">"@
}

/// The unit of a lambda. Its body is its last part.
pub open spec fn lambda_unit(
    node: SyntaxNode,
    depth: usize,
    scope: Seq<Seq<char>>,
    lines: Seq<LineSpan>,
    category: Category,
) -> UnitView {
    let full = node_range(node);
    let last = node.children@.last();
    let has_body = node.children@.len() > 0;
    let body = if has_body {
        node_range(last)
    } else {
        full
    };
    UnitView {
        name: qualified(scope, lambda_label(node, lines)),
        kind: FunctionKind::Lambda,
        category,
        full,
        declaration: declaration_range(full, body),
        body,
        parameters: parameter_list(node).len() as usize,
        explicit: ranges(parameter_list(node)),
        signals: if has_body {
            expression_signals(Dialect::Python, last, depth)
        } else {
            Seq::empty()
        },
    }
}

/// A visit of a node's body, where it has one.
pub open spec fn body_visit(node: SyntaxNode, context: ContextView) -> Seq<UnitVisitView> {
    match first_named(node.children@, "Body"@, 0) {
        Some(index) => seq![UnitVisitView { child: index, context }],
        None => Seq::empty(),
    }
}

/// The parts of a node that are met after its own units.
pub open spec fn python_after(
    node: SyntaxNode,
    context: ContextView,
    lines: Seq<LineSpan>,
) -> Seq<UnitVisitView> {
    let depth = context.depth;
    let list = python_steps(node, depth, context.part == Part::Default, true);
    let around = ContextView { place: ScopeKind::Function, ..context };
    if node.named("StmtFunctionDef"@) {
        visits_of(list, around, Part::Default) + body_visit(
            node,
            context.inside(depth, node_name(node), ScopeKind::Function, Part::Whole),
        )
    } else if node.named("StmtClassDef"@) {
        visits_of(
            list,
            context.inside(depth, node_name(node), ScopeKind::Module, Part::Whole),
            Part::Default,
        ) + body_visit(
            node,
            context.inside(depth, node_name(node), ScopeKind::Class, Part::Whole),
        )
    } else if node.named("ExprLambda"@) {
        visits_of(list, around, Part::Default) + if node.children@.len() > 0 {
            seq![
                UnitVisitView {
                    child: node.children@.len() - 1,
                    context: context.inside(
                        depth,
                        lambda_label(node, lines),
                        ScopeKind::Function,
                        Part::Whole,
                    ),
                },
            ]
        } else {
            Seq::empty()
        }
    } else {
        visits_of(list, context, Part::Default)
    }
}

/// The units that a node is itself.
pub open spec fn python_own_units(
    node: SyntaxNode,
    context: ContextView,
    lines: Seq<LineSpan>,
) -> Seq<UnitView> {
    if node.named("StmtFunctionDef"@) {
        seq![
            function_unit(node, context.depth, context.scope, context.place, context.category),
        ]
    } else if node.named("StmtClassDef"@) {
        initializer_units(
            node,
            node_range(node),
            context.depth,
            qualified(context.scope.push(node_name(node)), "<class>"@),
            FunctionKind::ClassInitializer,
            context.category,
        )
    } else if node.named("ExprLambda"@) {
        seq![lambda_unit(node, context.depth, context.scope, lines, context.category)]
    } else {
        Seq::empty()
    }
}

/// The units of a module.
pub open spec fn module_units(
    module: SyntaxNode,
    length: usize,
    lines: Seq<LineSpan>,
    category: Category,
) -> Seq<UnitView> {
    let full = ByteRange { start: 0, end: length };
    initializer_units(
        module,
        full,
        0,
        qualified(Seq::empty(), "<module>"@),
        FunctionKind::ModuleInitializer,
        category,
    ) + match first_named(module.children@, "Body"@, 0) {
        Some(index) => walk_units(
            Dialect::Python,
            module.children@[index],
            outermost(category),
            lines,
        ),
        None => Seq::empty(),
    }
}

fn span_body(statements: &Vec<SyntaxNode>, full: ByteRange) -> (range: ByteRange)
    ensures
        range == body_range(statements@, full),
{
    if statements.len() == 0 {
        full
    } else {
        ByteRange { start: statements[0].start, end: statements[statements.len() - 1].end }
    }
}

pub(crate) fn name_of_parameter<'a>(parameter: &'a SyntaxNode) -> (name: &'a str)
    ensures
        name@ == parameter_name(*parameter),
{
    match find_named(&parameter.children, "Parameter") {
        Some(index) => name_of_node(&parameter.children[index]),
        None => name_of_node(parameter),
    }
}

fn is_staticmethod(node: &SyntaxNode) -> (answer: bool)
    ensures
        answer == static_method(*node),
{
    let parts = &node.children;
    let mut index: usize = 0;
    while index < parts.len()
        invariant
            index <= parts@.len(),
            parts@ == node.children@,
            forall|earlier: int|
                0 <= earlier < index ==> !((#[trigger] parts@[earlier]).named("Decorator"@)
                    && parts@[earlier].children@.len() > 0 && ends_in_name(
                    parts@[earlier].children@[0],
                    "staticmethod"@,
                )),
        decreases parts@.len() - index,
    {
        let part = &parts[index];
        if part.is("Decorator") && part.children.len() > 0 {
            let expression = &part.children[0];
            if (expression.is("ExprName") && same_text(expression.text.as_str(), "staticmethod"))
                || (expression.is("ExprAttribute") && same_text(
                name_of_node(expression),
                "staticmethod",
            )) {
                return true;
            }
        }
        index += 1;
    }
    false
}

fn starts_with_receiver(node: &SyntaxNode, kind: FunctionKind) -> (answer: bool)
    ensures
        answer == has_receiver(*node, kind),
        answer ==> parameter_list(*node).len() > 0,
{
    if kind != FunctionKind::Method || is_staticmethod(node) {
        return false;
    }
    match find_named(&node.children, "Parameters") {
        Some(index) => {
            let parameters = &node.children[index].children;
            if parameters.len() == 0 {
                return false;
            }
            let name = name_of_parameter(&parameters[0]);
            same_text(name, "self") || same_text(name, "cls")
        },
        None => false,
    }
}

fn find_parameters(node: &SyntaxNode, skipped: usize) -> (result: (usize, Vec<ByteRange>))
    requires
        skipped <= parameter_list(*node).len(),
    ensures
        result.0 == parameter_list(*node).len() as usize,
        result.1@ == ranges(parameter_list(*node).skip(skipped as int)),
{
    match find_named(&node.children, "Parameters") {
        Some(index) => {
            let parameters = &node.children[index].children;
            (parameters.len(), list_ranges(parameters, skipped))
        },
        None => {
            let none: Vec<ByteRange> = Vec::new();
            assert(none@ =~= ranges(parameter_list(*node).skip(skipped as int)));
            (0, none)
        },
    }
}

fn collect_body_signals(node: &SyntaxNode, depth: usize) -> (list: Vec<Signal>)
    ensures
        list@ == body_signals(*node, depth),
{
    let mut list: Vec<Signal> = Vec::new();
    if let Some(index) = find_named(&node.children, "Body") {
        collect_signals(Dialect::Python, &node.children[index], depth, &mut list);
    }
    assert(list@ =~= body_signals(*node, depth));
    list
}

fn span_statements(node: &SyntaxNode, full: ByteRange) -> (range: ByteRange)
    ensures
        range == body_range(body_statements(*node), full),
{
    match find_named(&node.children, "Body") {
        Some(index) => span_body(&node.children[index].children, full),
        None => full,
    }
}

fn make_function_unit(
    node: &SyntaxNode,
    depth: usize,
    scope: &Vec<String>,
    kind: ScopeKind,
    category: Category,
) -> (unit: Unit)
    ensures
        unit@ == function_unit(*node, depth, texts(scope@), kind, category),
{
    let own_kind = match kind {
        ScopeKind::Class => FunctionKind::Method,
        ScopeKind::Function => FunctionKind::NestedFunction,
        ScopeKind::Module => FunctionKind::Function,
    };
    let skipped: usize = if starts_with_receiver(node, own_kind) {
        1
    } else {
        0
    };
    let (parameters, explicit) = find_parameters(node, skipped);
    let full = span_of(node);
    let body = span_statements(node, full);
    assert(parameter_list(*node).skip(0) =~= parameter_list(*node));
    Unit {
        name: qualified_name(scope, name_of_node(node)),
        kind: own_kind,
        category,
        full,
        declaration: span_declaration(full, body),
        body,
        parameters,
        explicit,
        signals: collect_body_signals(node, depth),
    }
}

fn do_charge(list: &Vec<Signal>) -> (answer: bool)
    ensures
        answer == charges(list@),
{
    let mut index: usize = 0;
    while index < list.len()
        invariant
            index <= list@.len(),
            forall|earlier: int|
                0 <= earlier < index ==> !((#[trigger] list@[earlier]).kind == SignalKind::Branch
                    || list@[earlier].kind == SignalKind::Guard || list@[earlier].kind
                    == SignalKind::BooleanOperator || list@[earlier].kind == SignalKind::Operation
                    || list@[earlier].kind == SignalKind::CallSite || list@[earlier].kind
                    == SignalKind::MatchArm),
        decreases list@.len() - index,
    {
        match list[index].kind {
            SignalKind::Branch
            | SignalKind::Guard
            | SignalKind::BooleanOperator
            | SignalKind::Operation
            | SignalKind::CallSite
            | SignalKind::MatchArm => {
                return true;
            },
            _ => {},
        }
        index += 1;
    }
    false
}

fn statement_runs_directly(statement: &SyntaxNode) -> (answer: bool)
    ensures
        answer == runs_directly(*statement),
{
    if statement.is("StmtFunctionDef") || statement.is("StmtClassDef") || statement.is("StmtPass") {
        false
    } else if statement.is("StmtExpr") {
        !(statement.children.len() > 0 && statement.children[0].is("ExprStringLiteral"))
    } else {
        true
    }
}

fn initializer_has_work(node: &SyntaxNode, list: &Vec<Signal>) -> (answer: bool)
    ensures
        answer == has_work(body_statements(*node), list@),
{
    if do_charge(list) {
        return true;
    }
    match find_named(&node.children, "Body") {
        Some(body) => {
            let statements = &node.children[body].children;
            let mut index: usize = 0;
            while index < statements.len()
                invariant
                    index <= statements@.len(),
                    statements@ == body_statements(*node),
                    !charges(list@),
                    forall|earlier: int|
                        0 <= earlier < index ==> !runs_directly(#[trigger] statements@[earlier]),
                decreases statements@.len() - index,
            {
                if statement_runs_directly(&statements[index]) {
                    return true;
                }
                index += 1;
            }
            false
        },
        None => false,
    }
}

fn push_initializer(
    node: &SyntaxNode,
    full: ByteRange,
    depth: usize,
    name: String,
    kind: FunctionKind,
    category: Category,
    output: &mut Vec<Unit>,
)
    ensures
        unit_views(final(output)@) == unit_views(old(output)@) + initializer_units(
            *node,
            full,
            depth,
            name@,
            kind,
            category,
        ),
{
    let ghost held = unit_views(output@);
    let list = collect_body_signals(node, depth);
    if initializer_has_work(node, &list) {
        let explicit: Vec<ByteRange> = Vec::new();
        assert(explicit@ =~= Seq::<ByteRange>::empty());
        let unit = Unit {
            name,
            kind,
            category,
            full,
            declaration: full,
            body: span_statements(node, full),
            parameters: 0,
            explicit,
            signals: list,
        };
        let ghost added = unit@;
        push_unit(output, unit);
        assert(unit_views(output@) =~= held + seq![added]);
    } else {
        assert(unit_views(output@) =~= held + Seq::<UnitView>::empty());
    }
}

pub(crate) fn label_lambda(node: &SyntaxNode, table: &LineTable) -> (label: String)
    requires
        table.well_formed(),
    ensures
        label@ == lambda_label(*node, table.lines@),
{
    let start = table.position(node.start);
    let mut label = "<lambda@".to_owned();
    push_decimal(&mut label, start.line);
    label.append(":");
    push_decimal(&mut label, start.column);
    label.append(">");
    label
}

fn make_lambda_unit(
    node: &SyntaxNode,
    depth: usize,
    scope: &Vec<String>,
    label: &str,
    Ghost(lines): Ghost<Seq<LineSpan>>,
    category: Category,
) -> (unit: Unit)
    requires
        label@ == lambda_label(*node, lines),
    ensures
        unit@ == lambda_unit(*node, depth, texts(scope@), lines, category),
{
    let full = span_of(node);
    let mut list: Vec<Signal> = Vec::new();
    let mut body = full;
    if node.children.len() > 0 {
        let last = &node.children[node.children.len() - 1];
        body = span_of(last);
        collect_expression(Dialect::Python, last, depth, &mut list);
        assert(list@ =~= expression_signals(Dialect::Python, *last, depth));
    } else {
        assert(list@ =~= Seq::<Signal>::empty());
    }
    let (parameters, explicit) = find_parameters(node, 0);
    assert(parameter_list(*node).skip(0) =~= parameter_list(*node));
    Unit {
        name: qualified_name(scope, label),
        kind: FunctionKind::Lambda,
        category,
        full,
        declaration: span_declaration(full, body),
        body,
        parameters,
        explicit,
        signals: list,
    }
}

pub(crate) fn push_python_units(
    node: &SyntaxNode,
    context: &Context,
    table: &LineTable,
    output: &mut Vec<Unit>,
)
    requires
        table.well_formed(),
    ensures
        unit_views(final(output)@) == unit_views(old(output)@) + python_own_units(
            *node,
            context@,
            table.lines@,
        ),
{
    let ghost held = unit_views(output@);
    let (depth, category) = (context.depth, context.category);
    if node.is("StmtFunctionDef") {
        let unit = make_function_unit(node, depth, &context.scope, context.place, category);
        push_unit(output, unit);
    } else if node.is("StmtClassDef") {
        let inner = with_scope(&context.scope, name_of_node(node));
        let name = qualified_name(&inner, "<class>");
        push_initializer(
            node,
            span_of(node),
            depth,
            name,
            FunctionKind::ClassInitializer,
            category,
            output,
        );
    } else if node.is("ExprLambda") {
        let label = label_lambda(node, table);
        let unit = make_lambda_unit(
            node,
            depth,
            &context.scope,
            label.as_str(),
            Ghost(table.lines@),
            category,
        );
        push_unit(output, unit);
    }
    assert(unit_views(output@) =~= held + python_own_units(*node, context@, table.lines@));
}

pub(crate) fn list_python_after(node: &SyntaxNode, context: &Context, table: &LineTable) -> (list:
    Vec<UnitVisit>)
    requires
        table.well_formed(),
    ensures
        visit_views(list@) == python_after(*node, context@, table.lines@),
{
    let mut list: Vec<UnitVisit> = Vec::new();
    let depth: usize = context.depth;
    let steps = list_python_steps(node, depth, context.part == Part::Default, true);
    let body = find_named(&node.children, "Body");
    if node.is("StmtFunctionDef") {
        push_steps(
            &mut list,
            &steps,
            &context.in_place(ScopeKind::Function),
            Part::Default,
        );
        if let Some(index) = body {
            let name = name_of_node(node);
            push_visit(
                &mut list,
                index,
                context.for_inside(depth, name, ScopeKind::Function, Part::Whole),
            );
        }
    } else if node.is("StmtClassDef") {
        let name = name_of_node(node);
        let around = context.for_inside(depth, name, ScopeKind::Module, Part::Whole);
        push_steps(&mut list, &steps, &around, Part::Default);
        if let Some(index) = body {
            push_visit(
                &mut list,
                index,
                context.for_inside(depth, name, ScopeKind::Class, Part::Whole),
            );
        }
    } else if node.is("ExprLambda") {
        push_steps(
            &mut list,
            &steps,
            &context.in_place(ScopeKind::Function),
            Part::Default,
        );
        if node.children.len() > 0 {
            let label = label_lambda(node, table);
            push_visit(
                &mut list,
                node.children.len() - 1,
                context.for_inside(depth, label.as_str(), ScopeKind::Function, Part::Whole),
            );
        }
    } else {
        push_steps(&mut list, &steps, context, Part::Default);
    }
    assert(visit_views(list@) =~= python_after(*node, context@, table.lines@));
    list
}

/// Collects the units of a module.
pub fn collect_module(
    module: &SyntaxNode,
    length: usize,
    table: &LineTable,
    category: Category,
) -> (output: Vec<Unit>)
    requires
        table.well_formed(),
    ensures
        unit_views(output@) == module_units(*module, length, table.lines@, category),
{
    let mut output: Vec<Unit> = Vec::new();
    let scope: Vec<String> = Vec::new();
    assert(unit_views(output@) =~= Seq::<UnitView>::empty());
    assert(texts(scope@) =~= Seq::<Seq<char>>::empty());
    push_initializer(
        module,
        ByteRange { start: 0, end: length },
        0,
        qualified_name(&scope, "<module>"),
        FunctionKind::ModuleInitializer,
        category,
        &mut output,
    );
    if let Some(body) = find_named(&module.children, "Body") {
        let context = Context::outermost(category);
        collect_walk(Dialect::Python, &module.children[body], &context, table, &mut output);
    }
    assert(unit_views(output@) =~= module_units(*module, length, table.lines@, category));
    output
}

}
