//! The callable units of JavaScript and TypeScript source.
use vstd::prelude::*;
use vstd::string::StringExecFns;
use crate::javascript_syntax::{
    function_declaration, function_expression, function_node, import_or_type,
    is_function_declaration, is_function_expression, is_function_node, is_import_or_type,
    javascript_part_steps, list_javascript_parts,
};
use crate::model::{Category, FunctionKind};
use crate::node_signals::{node_signal, push_node};
use crate::signals::{Signal, SignalKind};
use crate::spans::{LineSpan, LineTable};
use crate::syntax::{count_named, find_named, first_named, named_count, SyntaxNode};
use crate::text::same_text;
use crate::unit_walk::{
    closure_label, collect_walk, label_closure, outermost, push_steps, push_visit, text_option,
    visit_views, visits_of, walk_units, Context, ContextView, Part, ScopeKind, UnitVisit,
    UnitVisitView,
};
use crate::units::{
    body_range, declaration_range, list_ranges, node_range, push_unit, qualified, qualified_name,
    ranges, span_declaration, span_of, unit_views, with_scope, ByteRange, Unit, UnitView,
};
use crate::walk::{collect_expression, collect_signals, expression_signals, signals, Dialect};

verus! {

/// The name that a callable carries itself.
pub open spec fn own_name(node: SyntaxNode) -> Option<Seq<char>> {
    match first_named(node.children@, "BindingIdentifier"@, 0) {
        Some(index) => Some(node.children@[index].text@),
        None => None,
    }
}

/// What a callable is called: by its hint, by its own name, or by the name for
/// callables that have neither.
pub open spec fn local_name(
    node: SyntaxNode,
    hint: Option<Seq<char>>,
    nameless: Seq<char>,
) -> Seq<char> {
    match (hint, own_name(node)) {
        (Some(name), _) => name,
        (None, Some(name)) => name,
        (None, None) => nameless,
    }
}

/// What a property is called by its key.
pub open spec fn key_name(key: SyntaxNode) -> Seq<char> {
    if key.named("IdentifierName"@) {
        key.text@
    } else if key.named("PrivateIdentifier"@) {
        "#"@ + key.text@
    } else {
        "<computed>"@
    }
}

/// Where the key of a class element stands: behind its decorators.
pub open spec fn key_index(element: SyntaxNode) -> nat {
    named_count(element.children@, "Decorator"@, element.children@.len())
}

/// What a class element is called.
pub open spec fn element_name(element: SyntaxNode) -> Seq<char> {
    if key_index(element) < element.children@.len() {
        key_name(element.children@[key_index(element) as int])
    } else {
        "<computed>"@
    }
}

/// Whether a node is a property of a class.
pub open spec fn class_property(node: SyntaxNode) -> bool {
    node.named("PropertyDefinition"@) || node.named("AccessorProperty"@)
}

/// Whether the key of a property is computed.
pub open spec fn computed_key(property: SyntaxNode) -> bool {
    property.text@ == "true"@ && key_index(property) < property.children@.len()
}

/// Where the value of a property stands, where it has one.
pub open spec fn property_value(property: SyntaxNode) -> Option<int> {
    if key_index(property) + 1 < property.children@.len() {
        Some((key_index(property) + 1) as int)
    } else {
        None
    }
}

/// The parameters of a function.
pub open spec fn formal_parameters(node: SyntaxNode) -> Seq<SyntaxNode> {
    match first_named(node.children@, "FormalParameters"@, 0) {
        Some(index) => node.children@[index].children@,
        None => Seq::empty(),
    }
}

/// The unit of a function with a body, over what is called `full`.
pub open spec fn callable_unit(
    function: SyntaxNode,
    body: SyntaxNode,
    list: Seq<Signal>,
    full: ByteRange,
    name: Seq<char>,
    kind: FunctionKind,
    category: Category,
) -> UnitView {
    UnitView {
        name,
        kind,
        category,
        full,
        declaration: declaration_range(full, node_range(body)),
        body: node_range(body),
        parameters: formal_parameters(function).len() as usize,
        explicit: ranges(formal_parameters(function)),
        signals: list,
    }
}

/// The kind of a function by how it is written and by what it stands in.
pub open spec fn written_kind(node: SyntaxNode, place: ScopeKind) -> FunctionKind {
    if function_declaration(node) {
        if place == ScopeKind::Function {
            FunctionKind::NestedFunction
        } else {
            FunctionKind::Function
        }
    } else {
        FunctionKind::Closure
    }
}

/// The depth at which the body of a function starts: a declaration starts
/// anew.
pub open spec fn base_depth(node: SyntaxNode, depth: usize) -> usize {
    if written_kind(node, ScopeKind::Module) == FunctionKind::Function {
        0
    } else {
        depth
    }
}

/// The unit of a function, where it has a body.
pub open spec fn function_units(
    node: SyntaxNode,
    context: ContextView,
    lines: Seq<LineSpan>,
) -> Seq<UnitView> {
    match first_named(node.children@, "FunctionBody"@, 0) {
        Some(index) => seq![
            callable_unit(
                node,
                node.children@[index],
                signals(
                    Dialect::JavaScript,
                    node.children@[index],
                    base_depth(node, context.depth),
                ),
                node_range(node),
                qualified(
                    context.scope,
                    local_name(node, context.hint, closure_label(node, lines)),
                ),
                written_kind(node, context.place),
                context.category,
            ),
        ],
        None => Seq::empty(),
    }
}

/// What an arrow function is called.
pub open spec fn arrow_name(
    node: SyntaxNode,
    hint: Option<Seq<char>>,
    lines: Seq<LineSpan>,
) -> Seq<char> {
    match hint {
        Some(name) => name,
        None => closure_label(node, lines),
    }
}

/// The unit of an arrow function. Its body is its last part: statements, or
/// one expression.
pub open spec fn arrow_units(
    node: SyntaxNode,
    context: ContextView,
    lines: Seq<LineSpan>,
) -> Seq<UnitView> {
    if node.children@.len() == 0 {
        Seq::empty()
    } else {
        let body = node.children@.last();
        seq![
            callable_unit(
                node,
                body,
                if body.named("FunctionBody"@) {
                    signals(Dialect::JavaScript, body, context.depth)
                } else {
                    expression_signals(Dialect::JavaScript, body, context.depth)
                },
                node_range(node),
                qualified(context.scope, arrow_name(node, context.hint, lines)),
                FunctionKind::Closure,
                context.category,
            ),
        ]
    }
}

/// The function of a method, where it has a body.
pub open spec fn method_function(method: SyntaxNode) -> Option<SyntaxNode> {
    if method.children@.len() == 0 {
        None
    } else {
        let function = method.children@.last();
        if first_named(function.children@, "FunctionBody"@, 0) is Some {
            Some(function)
        } else {
            None
        }
    }
}

/// The unit of a method, where it has a body.
pub open spec fn method_units(method: SyntaxNode, context: ContextView) -> Seq<UnitView> {
    match method_function(method) {
        Some(function) => {
            let index = first_named(function.children@, "FunctionBody"@, 0)->Some_0;
            seq![
                callable_unit(
                    function,
                    function.children@[index],
                    signals(Dialect::JavaScript, function.children@[index], 0),
                    node_range(method),
                    qualified(context.scope, element_name(method)),
                    FunctionKind::Method,
                    context.category,
                ),
            ]
        },
        None => Seq::empty(),
    }
}

/// Where the class that a class is derived from stands: right before the body.
pub open spec fn heritage(class: SyntaxNode) -> Option<int> {
    let parts = class.children@;
    if parts.len() >= 2 && !parts[parts.len() - 2].named("BindingIdentifier"@)
        && !parts[parts.len() - 2].named("Decorator"@) {
        Some(parts.len() - 2)
    } else {
        None
    }
}

/// The signals of the decorators among the first `count` parts.
pub open spec fn decorator_signals(parts: Seq<SyntaxNode>, depth: usize, count: nat) -> Seq<Signal>
    decreases count,
{
    if count == 0 {
        Seq::empty()
    } else {
        let earlier = decorator_signals(parts, depth, (count - 1) as nat);
        let part = parts[count - 1];
        if part.named("Decorator"@) && part.children@.len() > 0 {
            earlier + expression_signals(Dialect::JavaScript, part.children@[0], depth)
        } else {
            earlier
        }
    }
}

/// The signals of a property of a class: those of a computed key and those of
/// the value, which is a statement of its own.
pub open spec fn property_signals(property: SyntaxNode, depth: usize) -> Seq<Signal> {
    let parts = property.children@;
    let key: Seq<Signal> = if computed_key(property) {
        expression_signals(Dialect::JavaScript, parts[key_index(property) as int], depth)
    } else {
        Seq::empty()
    };
    let value: Seq<Signal> = match property_value(property) {
        Some(index) => seq![node_signal(SignalKind::Statement, parts[index], depth)]
            + expression_signals(Dialect::JavaScript, parts[index], depth),
        None => Seq::empty(),
    };
    key + value
}

/// A statement signal for each part of a node.
pub open spec fn statement_signals(parts: Seq<SyntaxNode>, depth: usize) -> Seq<Signal> {
    parts.map_values(|part: SyntaxNode| node_signal(SignalKind::Statement, part, depth))
}

/// The signals of a class element when the class is defined.
pub open spec fn element_signals(element: SyntaxNode, depth: usize) -> Seq<Signal> {
    if class_property(element) {
        property_signals(element, depth)
    } else if element.named("StaticBlock"@) {
        statement_signals(element.children@, depth) + signals(Dialect::JavaScript, element, depth)
    } else {
        Seq::empty()
    }
}

/// The signals of the first `count` class elements when the class is defined.
pub open spec fn elements_signals(elements: Seq<SyntaxNode>, depth: usize, count: nat) -> Seq<
    Signal,
>
    decreases count,
{
    if count == 0 {
        Seq::empty()
    } else {
        elements_signals(elements, depth, (count - 1) as nat) + element_signals(
            elements[count - 1],
            depth,
        )
    }
}

/// The signals of a class when it is defined.
pub open spec fn class_signals(class: SyntaxNode, depth: usize) -> Seq<Signal> {
    let parts = class.children@;
    let derived: Seq<Signal> = match heritage(class) {
        Some(index) => expression_signals(Dialect::JavaScript, parts[index], depth),
        None => Seq::empty(),
    };
    let elements = if parts.len() > 0 {
        parts.last().children@
    } else {
        Seq::empty()
    };
    derived + decorator_signals(parts, depth, parts.len()) + elements_signals(
        elements,
        depth,
        elements.len(),
    )
}

/// The unit of a class that does anything when it is defined.
pub open spec fn class_units(class: SyntaxNode, context: ContextView) -> Seq<UnitView> {
    let list = class_signals(class, context.depth);
    let full = node_range(class);
    if list.len() == 0 || class.children@.len() == 0 {
        Seq::empty()
    } else {
        let body = node_range(class.children@.last());
        seq![
            UnitView {
                name: qualified(
                    context.scope.push(local_name(class, context.hint, "<class>"@)),
                    "<class>"@,
                ),
                kind: FunctionKind::ClassInitializer,
                category: context.category,
                full,
                declaration: declaration_range(full, body),
                body,
                parameters: 0,
                explicit: Seq::empty(),
                signals: list,
            },
        ]
    }
}

/// The units that a node is itself.
pub open spec fn javascript_units(
    node: SyntaxNode,
    context: ContextView,
    lines: Seq<LineSpan>,
) -> Seq<UnitView> {
    if context.part != Part::Whole {
        Seq::empty()
    } else if function_node(node) {
        function_units(node, context, lines)
    } else if node.named("ArrowFunctionExpression"@) {
        arrow_units(node, context, lines)
    } else if node.named("Class"@) {
        class_units(node, context)
    } else if node.named("MethodDefinition"@) {
        method_units(node, context)
    } else {
        Seq::empty()
    }
}

/// A visit of one part of a node.
pub open spec fn visit_to(child: int, context: ContextView) -> UnitVisitView {
    UnitVisitView { child, context }
}

/// Visits of the decorators among the first `count` parts.
pub open spec fn decorator_visits(parts: Seq<SyntaxNode>, context: ContextView, count: nat) -> Seq<
    UnitVisitView,
>
    decreases count,
{
    if count == 0 {
        Seq::empty()
    } else {
        let earlier = decorator_visits(parts, context, (count - 1) as nat);
        if parts[count - 1].named("Decorator"@) {
            earlier.push(visit_to(count - 1, context))
        } else {
            earlier
        }
    }
}

/// The parts of a class that are met before its unit: what it is derived from,
/// its decorators, and those of its properties.
pub open spec fn javascript_before(node: SyntaxNode, context: ContextView) -> Seq<UnitVisitView> {
    if context.part == Part::Whole && node.named("Class"@) {
        let parts = node.children@;
        let here = context.part(context.depth, None, Part::Whole);
        let derived: Seq<UnitVisitView> = match heritage(node) {
            Some(index) => seq![visit_to(index, here)],
            None => Seq::empty(),
        };
        let keys: Seq<UnitVisitView> = if parts.len() > 0 {
            seq![
                visit_to(parts.len() - 1, context.part(context.depth, None, Part::Keys)),
            ]
        } else {
            Seq::empty()
        };
        derived + decorator_visits(parts, here, parts.len()) + keys
    } else {
        Seq::empty()
    }
}

/// Visits of what names and decorates a property.
pub open spec fn key_visits(property: SyntaxNode, context: ContextView) -> Seq<UnitVisitView> {
    let here = context.part(context.depth, None, Part::Whole);
    let key: Seq<UnitVisitView> = if computed_key(property) {
        seq![visit_to(key_index(property) as int, here)]
    } else {
        Seq::empty()
    };
    key + decorator_visits(property.children@, here, property.children@.len())
}

/// Visits of all parts of a node, each for what names and decorates it.
pub open spec fn keys_visits(count: nat, context: ContextView) -> Seq<UnitVisitView> {
    Seq::new(count, |child: int| visit_to(child, context.part(context.depth, None, Part::Keys)))
}

/// The parts of a node that are met where less than the whole of it is looked
/// at.
pub open spec fn partial_visits(node: SyntaxNode, context: ContextView) -> Seq<UnitVisitView> {
    if context.part == Part::Body {
        match first_named(node.children@, "FunctionBody"@, 0) {
            Some(index) => seq![
                visit_to(index, context.part(context.depth, None, Part::Whole)),
            ],
            None => Seq::empty(),
        }
    } else if class_property(node) {
        key_visits(node, context)
    } else if node.named("ClassBody"@) {
        keys_visits(node.children@.len(), context)
    } else {
        Seq::empty()
    }
}

/// The parts of a function that are met after its unit.
pub open spec fn function_visits(
    node: SyntaxNode,
    context: ContextView,
    lines: Seq<LineSpan>,
) -> Seq<UnitVisitView> {
    let inside = context.inside(
        0,
        local_name(node, context.hint, closure_label(node, lines)),
        ScopeKind::Function,
        Part::Whole,
    );
    match first_named(node.children@, "FunctionBody"@, 0) {
        Some(index) => {
            let parameters: Seq<UnitVisitView> = match first_named(
                node.children@,
                "FormalParameters"@,
                0,
            ) {
                Some(list) => seq![visit_to(list, inside)],
                None => Seq::empty(),
            };
            parameters.push(visit_to(index, inside))
        },
        None => Seq::empty(),
    }
}

/// The hint that a declarator gives its initial value.
pub open spec fn declared_name(declarator: SyntaxNode) -> Option<Seq<char>> {
    if declarator.children@.len() > 0 && declarator.children@[0].named("BindingIdentifier"@) {
        Some(declarator.children@[0].text@)
    } else {
        None
    }
}

/// The parts of a node that are met after its own units, where the whole of it
/// is looked at.
pub open spec fn whole_visits(
    node: SyntaxNode,
    context: ContextView,
    lines: Seq<LineSpan>,
) -> Seq<UnitVisitView> {
    let parts = node.children@;
    if function_node(node) {
        function_visits(node, context, lines)
    } else if node.named("ArrowFunctionExpression"@) {
        if parts.len() > 0 {
            seq![
                visit_to(
                    parts.len() - 1,
                    context.inside(
                        context.depth,
                        arrow_name(node, context.hint, lines),
                        ScopeKind::Function,
                        Part::Whole,
                    ),
                ),
            ]
        } else {
            Seq::empty()
        }
    } else if node.named("Class"@) {
        if parts.len() > 0 {
            seq![
                visit_to(
                    parts.len() - 1,
                    context.inside(
                        context.depth,
                        local_name(node, context.hint, "<class>"@),
                        ScopeKind::Class,
                        Part::Whole,
                    ),
                ),
            ]
        } else {
            Seq::empty()
        }
    } else if node.named("MethodDefinition"@) {
        if method_function(node) is Some {
            seq![
                visit_to(
                    parts.len() - 1,
                    context.inside(0, element_name(node), ScopeKind::Function, Part::Body),
                ),
            ]
        } else {
            Seq::empty()
        }
    } else if class_property(node) {
        match property_value(node) {
            Some(index) => seq![
                visit_to(
                    index,
                    context.part(context.depth, Some(element_name(node)), Part::Whole),
                ),
            ],
            None => Seq::empty(),
        }
    } else if node.named("VariableDeclarator"@) {
        if parts.len() > 1 {
            seq![
                visit_to(1, context.part(context.depth, declared_name(node), Part::Whole)),
            ]
        } else {
            Seq::empty()
        }
    } else if import_or_type(node) {
        Seq::empty()
    } else {
        visits_of(javascript_part_steps(node, context.depth, parts.len()), context, Part::Whole)
    }
}

/// The parts of a node that are met after its own units.
pub open spec fn javascript_after(
    node: SyntaxNode,
    context: ContextView,
    lines: Seq<LineSpan>,
) -> Seq<UnitVisitView> {
    if context.part == Part::Whole {
        whole_visits(node, context, lines)
    } else {
        partial_visits(node, context)
    }
}

/// Whether an expression is no more than a callable, perhaps in brackets or
/// under a type.
pub open spec fn callable_initializer(expression: SyntaxNode) -> bool
    decreases expression,
{
    if expression.named("ArrowFunctionExpression"@) || function_expression(expression)
        || expression.named("Class"@) {
        true
    } else if expression.named("ParenthesizedExpression"@) || expression.named("TSAsExpression"@)
        || expression.named("TSSatisfiesExpression"@) || expression.named("TSTypeAssertion"@)
        || expression.named("TSNonNullExpression"@) || expression.named(
        "TSInstantiationExpression"@,
    ) {
        expression.children@.len() > 0 && callable_initializer(expression.children@[0])
    } else {
        false
    }
}

/// Whether a declarator computes an initial value that is no callable.
pub open spec fn declarator_works(declarator: SyntaxNode) -> bool {
    declarator.children@.len() > 1 && !callable_initializer(declarator.children@[1])
}

/// Whether a declaration of variables computes anything.
pub open spec fn declaration_works(declaration: SyntaxNode) -> bool {
    exists|index: int|
        0 <= index < declaration.children@.len() && declarator_works(
            #[trigger] declaration.children@[index],
        )
}

/// Whether a part of a module is no statement.
pub open spec fn preamble(node: SyntaxNode) -> bool {
    node.named("Hashbang"@) || node.named("Directive"@)
}

/// Whether a statement of a module does something when the module is run. A
/// module that holds only callable declarations has no unit of its own: the
/// callables already own their bodies.
pub open spec fn module_work(statement: SyntaxNode) -> bool {
    let parts = statement.children@;
    if function_node(statement) || statement.named("Class"@) || import_or_type(statement)
        || statement.named("EmptyStatement"@) || preamble(statement) {
        false
    } else if statement.named("VariableDeclaration"@) {
        declaration_works(statement)
    } else if statement.named("ExportDeclaration"@) {
        parts.len() > 0 && parts[0].named("VariableDeclaration"@) && declaration_works(parts[0])
    } else if statement.named("ExportDefaultDeclaration"@) {
        parts.len() > 0 && !function_node(parts[0]) && !parts[0].named("Class"@)
    } else {
        true
    }
}

/// The statements of a module or of a function: what stands behind the
/// directives.
pub open spec fn statements_from(parts: Seq<SyntaxNode>, start: nat) -> nat
    decreases parts.len() - start,
{
    if start < parts.len() && preamble(parts[start as int]) {
        statements_from(parts, start + 1)
    } else {
        start
    }
}

/// The unit of a module that does anything when it is run.
pub open spec fn module_unit(program: SyntaxNode, length: usize, category: Category) -> Seq<
    UnitView,
> {
    let parts = program.children@;
    let full = ByteRange { start: 0, end: length };
    if exists|index: int| 0 <= index < parts.len() && module_work(#[trigger] parts[index]) {
        let body = body_range(parts.skip(statements_from(parts, 0) as int), full);
        seq![
            UnitView {
                name: "<module>"@,
                kind: FunctionKind::ModuleInitializer,
                category,
                full,
                declaration: declaration_range(full, body),
                body,
                parameters: 0,
                explicit: Seq::empty(),
                signals: signals(Dialect::JavaScript, program, 0),
            },
        ]
    } else {
        Seq::empty()
    }
}

/// The units of a module.
pub open spec fn program_units(
    program: SyntaxNode,
    length: usize,
    lines: Seq<LineSpan>,
    category: Category,
) -> Seq<UnitView> {
    module_unit(program, length, category) + walk_units(
        Dialect::JavaScript,
        program,
        outermost(category),
        lines,
    )
}

fn name_callable(node: &SyntaxNode, hint: &Option<String>, nameless: &str) -> (name: String)
    ensures
        name@ == local_name(*node, text_option(*hint), nameless@),
{
    match hint {
        Some(name) => name.clone(),
        None => match find_named(&node.children, "BindingIdentifier") {
            Some(index) => node.children[index].text.clone(),
            None => nameless.to_owned(),
        },
    }
}

fn name_function(node: &SyntaxNode, context: &Context, table: &LineTable) -> (name: String)
    requires
        table.well_formed(),
    ensures
        name@ == local_name(*node, context@.hint, closure_label(*node, table.lines@)),
{
    let label = label_closure(node, table);
    name_callable(node, &context.hint, label.as_str())
}

fn name_arrow(node: &SyntaxNode, context: &Context, table: &LineTable) -> (name: String)
    requires
        table.well_formed(),
    ensures
        name@ == arrow_name(*node, context@.hint, table.lines@),
{
    match &context.hint {
        Some(name) => name.clone(),
        None => label_closure(node, table),
    }
}

fn find_key(element: &SyntaxNode) -> (index: usize)
    ensures
        index == key_index(*element),
{
    count_named(&element.children, "Decorator")
}

pub(crate) fn name_element(element: &SyntaxNode) -> (name: String)
    ensures
        name@ == element_name(*element),
{
    let index: usize = find_key(element);
    if index < element.children.len() {
        let key = &element.children[index];
        if key.is("IdentifierName") {
            return key.text.clone();
        }
        if key.is("PrivateIdentifier") {
            let mut name = "#".to_owned();
            name.append(key.text.as_str());
            return name;
        }
    }
    "<computed>".to_owned()
}

pub(crate) fn is_class_property(node: &SyntaxNode) -> (answer: bool)
    ensures
        answer == class_property(*node),
{
    node.is("PropertyDefinition") || node.is("AccessorProperty")
}

fn has_computed_key(property: &SyntaxNode) -> (answer: bool)
    ensures
        answer == computed_key(*property),
{
    same_text(property.text.as_str(), "true") && find_key(property) < property.children.len()
}

pub(crate) fn find_value(property: &SyntaxNode) -> (index: Option<usize>)
    ensures
        match (index, property_value(*property)) {
            (Some(found), Some(expected)) => found == expected && found
                < property.children@.len(),
            (None, None) => true,
            _ => false,
        },
{
    let key: usize = find_key(property);
    if key < property.children.len() && key + 1 < property.children.len() {
        Some(key + 1)
    } else {
        None
    }
}

fn list_parameters(function: &SyntaxNode) -> (result: (usize, Vec<ByteRange>))
    ensures
        result.0 == formal_parameters(*function).len() as usize,
        result.1@ == ranges(formal_parameters(*function)),
{
    match find_named(&function.children, "FormalParameters") {
        Some(index) => {
            let parameters = &function.children[index].children;
            let list = list_ranges(parameters, 0);
            assert(parameters@.skip(0) =~= parameters@);
            (parameters.len(), list)
        },
        None => {
            let none: Vec<ByteRange> = Vec::new();
            assert(none@ =~= ranges(formal_parameters(*function)));
            (0, none)
        },
    }
}

fn make_callable(
    function: &SyntaxNode,
    body: &SyntaxNode,
    list: Vec<Signal>,
    full: ByteRange,
    name: String,
    kind: FunctionKind,
    category: Category,
) -> (unit: Unit)
    ensures
        unit@ == callable_unit(*function, *body, list@, full, name@, kind, category),
{
    let (parameters, explicit) = list_parameters(function);
    let body_span = span_of(body);
    Unit {
        name,
        kind,
        category,
        full,
        declaration: span_declaration(full, body_span),
        body: body_span,
        parameters,
        explicit,
        signals: list,
    }
}

fn find_kind(node: &SyntaxNode, place: ScopeKind) -> (kind: FunctionKind)
    ensures
        kind == written_kind(*node, place),
{
    if is_function_declaration(node) {
        if place == ScopeKind::Function {
            FunctionKind::NestedFunction
        } else {
            FunctionKind::Function
        }
    } else {
        FunctionKind::Closure
    }
}

fn walk_body(body: &SyntaxNode, depth: usize) -> (list: Vec<Signal>)
    ensures
        list@ == signals(Dialect::JavaScript, *body, depth),
{
    let mut list: Vec<Signal> = Vec::new();
    collect_signals(Dialect::JavaScript, body, depth, &mut list);
    assert(list@ =~= signals(Dialect::JavaScript, *body, depth));
    list
}

fn push_function(node: &SyntaxNode, context: &Context, table: &LineTable, output: &mut Vec<Unit>)
    requires
        table.well_formed(),
    ensures
        unit_views(final(output)@) == unit_views(old(output)@) + function_units(
            *node,
            context@,
            table.lines@,
        ),
{
    let ghost held = unit_views(output@);
    if let Some(index) = find_named(&node.children, "FunctionBody") {
        let body = &node.children[index];
        let depth: usize = if find_kind(node, ScopeKind::Module) == FunctionKind::Function {
            0
        } else {
            context.depth
        };
        let local = name_function(node, context, table);
        let name = qualified_name(&context.scope, local.as_str());
        push_unit(
            output,
            make_callable(
                node,
                body,
                walk_body(body, depth),
                span_of(node),
                name,
                find_kind(node, context.place),
                context.category,
            ),
        );
    }
    assert(unit_views(output@) =~= held + function_units(*node, context@, table.lines@));
}

fn push_arrow(node: &SyntaxNode, context: &Context, table: &LineTable, output: &mut Vec<Unit>)
    requires
        table.well_formed(),
    ensures
        unit_views(final(output)@) == unit_views(old(output)@) + arrow_units(
            *node,
            context@,
            table.lines@,
        ),
{
    let ghost held = unit_views(output@);
    if node.children.len() > 0 {
        let body = &node.children[node.children.len() - 1];
        let mut list: Vec<Signal> = Vec::new();
        if body.is("FunctionBody") {
            list = walk_body(body, context.depth);
        } else {
            collect_expression(Dialect::JavaScript, body, context.depth, &mut list);
            assert(list@ =~= expression_signals(Dialect::JavaScript, *body, context.depth));
        }
        let local = name_arrow(node, context, table);
        let name = qualified_name(&context.scope, local.as_str());
        push_unit(
            output,
            make_callable(
                node,
                body,
                list,
                span_of(node),
                name,
                FunctionKind::Closure,
                context.category,
            ),
        );
    }
    assert(unit_views(output@) =~= held + arrow_units(*node, context@, table.lines@));
}

fn push_method(method: &SyntaxNode, context: &Context, output: &mut Vec<Unit>)
    ensures
        unit_views(final(output)@) == unit_views(old(output)@) + method_units(*method, context@),
{
    let ghost held = unit_views(output@);
    if method.children.len() > 0 {
        let function = &method.children[method.children.len() - 1];
        if let Some(index) = find_named(&function.children, "FunctionBody") {
            let body = &function.children[index];
            let local = name_element(method);
            let name = qualified_name(&context.scope, local.as_str());
            push_unit(
                output,
                make_callable(
                    function,
                    body,
                    walk_body(body, 0),
                    span_of(method),
                    name,
                    FunctionKind::Method,
                    context.category,
                ),
            );
        }
    }
    assert(unit_views(output@) =~= held + method_units(*method, context@));
}

fn find_heritage(class: &SyntaxNode) -> (index: Option<usize>)
    ensures
        match (index, heritage(*class)) {
            (Some(found), Some(expected)) => found == expected && found < class.children@.len(),
            (None, None) => true,
            _ => false,
        },
{
    let parts = &class.children;
    if parts.len() >= 2 && !parts[parts.len() - 2].is("BindingIdentifier") && !parts[parts.len()
        - 2].is("Decorator") {
        Some(parts.len() - 2)
    } else {
        None
    }
}

fn push_decorator_signals(parts: &Vec<SyntaxNode>, depth: usize, list: &mut Vec<Signal>)
    ensures
        final(list)@ == old(list)@ + decorator_signals(parts@, depth, parts@.len()),
{
    let ghost held = list@;
    let mut index: usize = 0;
    assert(list@ =~= held + decorator_signals(parts@, depth, 0));
    while index < parts.len()
        invariant
            index <= parts@.len(),
            list@ == held + decorator_signals(parts@, depth, index as nat),
        decreases parts@.len() - index,
    {
        let part = &parts[index];
        if part.is("Decorator") && part.children.len() > 0 {
            collect_expression(Dialect::JavaScript, &part.children[0], depth, list);
        }
        index += 1;
        assert(list@ =~= held + decorator_signals(parts@, depth, index as nat));
    }
}

fn push_element_signals(element: &SyntaxNode, depth: usize, list: &mut Vec<Signal>)
    ensures
        final(list)@ == old(list)@ + element_signals(*element, depth),
{
    let ghost held = list@;
    let parts = &element.children;
    if is_class_property(element) {
        if has_computed_key(element) {
            collect_expression(Dialect::JavaScript, &parts[find_key(element)], depth, list);
        }
        if let Some(index) = find_value(element) {
            push_node(list, SignalKind::Statement, &parts[index], depth);
            collect_expression(Dialect::JavaScript, &parts[index], depth, list);
        }
    } else if element.is("StaticBlock") {
        let mut index: usize = 0;
        while index < parts.len()
            invariant
                index <= parts@.len(),
                parts@ == element.children@,
                list@ =~= held + statement_signals(parts@, depth).take(index as int),
            decreases parts@.len() - index,
        {
            push_node(list, SignalKind::Statement, &parts[index], depth);
            index += 1;
        }
        collect_signals(Dialect::JavaScript, element, depth, list);
    }
    assert(list@ =~= held + element_signals(*element, depth));
}

fn list_class_signals(class: &SyntaxNode, depth: usize) -> (list: Vec<Signal>)
    ensures
        list@ == class_signals(*class, depth),
{
    let mut list: Vec<Signal> = Vec::new();
    let parts = &class.children;
    if let Some(index) = find_heritage(class) {
        collect_expression(Dialect::JavaScript, &parts[index], depth, &mut list);
    }
    push_decorator_signals(parts, depth, &mut list);
    if parts.len() > 0 {
        let elements = &parts[parts.len() - 1].children;
        let ghost held = list@;
        let mut index: usize = 0;
        assert(list@ =~= held + elements_signals(elements@, depth, 0));
        while index < elements.len()
            invariant
                index <= elements@.len(),
                list@ == held + elements_signals(elements@, depth, index as nat),
            decreases elements@.len() - index,
        {
            push_element_signals(&elements[index], depth, &mut list);
            index += 1;
            assert(list@ =~= held + elements_signals(elements@, depth, index as nat));
        }
    }
    assert(list@ =~= class_signals(*class, depth));
    list
}

fn push_class(class: &SyntaxNode, context: &Context, output: &mut Vec<Unit>)
    ensures
        unit_views(final(output)@) == unit_views(old(output)@) + class_units(*class, context@),
{
    let ghost held = unit_views(output@);
    let list = list_class_signals(class, context.depth);
    if list.len() > 0 && class.children.len() > 0 {
        let full = span_of(class);
        let body = span_of(&class.children[class.children.len() - 1]);
        let local = name_callable(class, &context.hint, "<class>");
        let scope = with_scope(&context.scope, local.as_str());
        let explicit: Vec<ByteRange> = Vec::new();
        assert(explicit@ =~= Seq::<ByteRange>::empty());
        push_unit(
            output,
            Unit {
                name: qualified_name(&scope, "<class>"),
                kind: FunctionKind::ClassInitializer,
                category: context.category,
                full,
                declaration: span_declaration(full, body),
                body,
                parameters: 0,
                explicit,
                signals: list,
            },
        );
    }
    assert(unit_views(output@) =~= held + class_units(*class, context@));
}

pub(crate) fn push_javascript_units(
    node: &SyntaxNode,
    context: &Context,
    table: &LineTable,
    output: &mut Vec<Unit>,
)
    requires
        table.well_formed(),
    ensures
        unit_views(final(output)@) == unit_views(old(output)@) + javascript_units(
            *node,
            context@,
            table.lines@,
        ),
{
    let ghost held = unit_views(output@);
    if context.part == Part::Whole {
        if is_function_node(node) {
            push_function(node, context, table, output);
            return ;
        }
        if node.is("ArrowFunctionExpression") {
            push_arrow(node, context, table, output);
            return ;
        }
        if node.is("Class") {
            push_class(node, context, output);
            return ;
        }
        if node.is("MethodDefinition") {
            push_method(node, context, output);
            return ;
        }
    }
    assert(unit_views(output@) =~= held + Seq::<UnitView>::empty());
}

fn push_decorator_visits(
    parts: &Vec<SyntaxNode>,
    context: &Context,
    list: &mut Vec<UnitVisit>,
)
    ensures
        visit_views(final(list)@) == visit_views(old(list)@) + decorator_visits(
            parts@,
            context@.part(context@.depth, None, Part::Whole),
            parts@.len(),
        ),
{
    let ghost held = visit_views(list@);
    let ghost here = context@.part(context@.depth, None, Part::Whole);
    let mut index: usize = 0;
    assert(visit_views(list@) =~= held + decorator_visits(parts@, here, 0));
    while index < parts.len()
        invariant
            index <= parts@.len(),
            here == context@.part(context@.depth, None, Part::Whole),
            visit_views(list@) == held + decorator_visits(parts@, here, index as nat),
        decreases parts@.len() - index,
    {
        if parts[index].is("Decorator") {
            push_visit(list, index, context.for_part(context.depth, None, Part::Whole));
        }
        index += 1;
        assert(visit_views(list@) =~= held + decorator_visits(parts@, here, index as nat));
    }
}

pub(crate) fn list_javascript_before(node: &SyntaxNode, context: &Context) -> (list: Vec<UnitVisit>)
    ensures
        visit_views(list@) == javascript_before(*node, context@),
{
    let mut list: Vec<UnitVisit> = Vec::new();
    if context.part == Part::Whole && node.is("Class") {
        if let Some(index) = find_heritage(node) {
            push_visit(&mut list, index, context.for_part(context.depth, None, Part::Whole));
        }
        push_decorator_visits(&node.children, context, &mut list);
        if node.children.len() > 0 {
            let child: usize = node.children.len() - 1;
            push_visit(&mut list, child, context.for_part(context.depth, None, Part::Keys));
        }
    }
    assert(visit_views(list@) =~= javascript_before(*node, context@));
    list
}

fn push_key_visits(property: &SyntaxNode, context: &Context, list: &mut Vec<UnitVisit>)
    ensures
        visit_views(final(list)@) == visit_views(old(list)@) + key_visits(*property, context@),
{
    let ghost held = visit_views(list@);
    if has_computed_key(property) {
        let child: usize = find_key(property);
        push_visit(list, child, context.for_part(context.depth, None, Part::Whole));
    }
    push_decorator_visits(&property.children, context, list);
    assert(visit_views(list@) =~= held + key_visits(*property, context@));
}

fn list_partial(node: &SyntaxNode, context: &Context) -> (list: Vec<UnitVisit>)
    ensures
        visit_views(list@) == partial_visits(*node, context@),
{
    let mut list: Vec<UnitVisit> = Vec::new();
    if context.part == Part::Body {
        if let Some(index) = find_named(&node.children, "FunctionBody") {
            push_visit(&mut list, index, context.for_part(context.depth, None, Part::Whole));
        }
    } else if is_class_property(node) {
        push_key_visits(node, context, &mut list);
    } else if node.is("ClassBody") {
        let count: usize = node.children.len();
        let mut child: usize = 0;
        while child < count
            invariant
                child <= count,
                visit_views(list@) =~= keys_visits(child as nat, context@),
            decreases count - child,
        {
            push_visit(&mut list, child, context.for_part(context.depth, None, Part::Keys));
            child += 1;
        }
    }
    assert(visit_views(list@) =~= partial_visits(*node, context@));
    list
}

fn list_function_visits(node: &SyntaxNode, context: &Context, table: &LineTable) -> (list: Vec<
    UnitVisit,
>)
    requires
        table.well_formed(),
    ensures
        visit_views(list@) == function_visits(*node, context@, table.lines@),
{
    let mut list: Vec<UnitVisit> = Vec::new();
    if let Some(index) = find_named(&node.children, "FunctionBody") {
        let local = name_function(node, context, table);
        if let Some(parameters) = find_named(&node.children, "FormalParameters") {
            push_visit(
                &mut list,
                parameters,
                context.for_inside(0, local.as_str(), ScopeKind::Function, Part::Whole),
            );
        }
        push_visit(
            &mut list,
            index,
            context.for_inside(0, local.as_str(), ScopeKind::Function, Part::Whole),
        );
    }
    assert(visit_views(list@) =~= function_visits(*node, context@, table.lines@));
    list
}

fn has_body(method: &SyntaxNode) -> (answer: bool)
    ensures
        answer == (method_function(*method) is Some),
{
    method.children.len() > 0 && find_named(
        &method.children[method.children.len() - 1].children,
        "FunctionBody",
    ).is_some()
}

fn find_declared_name(declarator: &SyntaxNode) -> (name: Option<String>)
    ensures
        text_option(name) == declared_name(*declarator),
{
    if declarator.children.len() > 0 && declarator.children[0].is("BindingIdentifier") {
        Some(declarator.children[0].text.clone())
    } else {
        None
    }
}

fn list_whole(node: &SyntaxNode, context: &Context, table: &LineTable) -> (list: Vec<UnitVisit>)
    requires
        table.well_formed(),
    ensures
        visit_views(list@) == whole_visits(*node, context@, table.lines@),
{
    let mut list: Vec<UnitVisit> = Vec::new();
    let count: usize = node.children.len();
    let depth: usize = context.depth;
    if is_function_node(node) {
        return list_function_visits(node, context, table);
    } else if node.is("ArrowFunctionExpression") {
        if count > 0 {
            let local = name_arrow(node, context, table);
            push_visit(
                &mut list,
                count - 1,
                context.for_inside(depth, local.as_str(), ScopeKind::Function, Part::Whole),
            );
        }
    } else if node.is("Class") {
        if count > 0 {
            let local = name_callable(node, &context.hint, "<class>");
            push_visit(
                &mut list,
                count - 1,
                context.for_inside(depth, local.as_str(), ScopeKind::Class, Part::Whole),
            );
        }
    } else if node.is("MethodDefinition") {
        if has_body(node) {
            let local = name_element(node);
            push_visit(
                &mut list,
                count - 1,
                context.for_inside(0, local.as_str(), ScopeKind::Function, Part::Body),
            );
        }
    } else if is_class_property(node) {
        if let Some(index) = find_value(node) {
            let hint = Some(name_element(node));
            push_visit(&mut list, index, context.for_part(depth, hint, Part::Whole));
        }
    } else if node.is("VariableDeclarator") {
        if count > 1 {
            let hint = find_declared_name(node);
            push_visit(&mut list, 1, context.for_part(depth, hint, Part::Whole));
        }
    } else if !is_import_or_type(node) {
        let steps = list_javascript_parts(node, depth);
        push_steps(&mut list, &steps, context, Part::Whole);
    }
    assert(visit_views(list@) =~= whole_visits(*node, context@, table.lines@));
    list
}

pub(crate) fn list_javascript_after(node: &SyntaxNode, context: &Context, table: &LineTable) -> (list:
    Vec<UnitVisit>)
    requires
        table.well_formed(),
    ensures
        visit_views(list@) == javascript_after(*node, context@, table.lines@),
{
    if context.part == Part::Whole {
        list_whole(node, context, table)
    } else {
        list_partial(node, context)
    }
}

fn is_callable_initializer(expression: &SyntaxNode) -> (answer: bool)
    ensures
        answer == callable_initializer(*expression),
    decreases expression,
{
    if expression.is("ArrowFunctionExpression") || is_function_expression(expression)
        || expression.is("Class") {
        true
    } else if expression.is("ParenthesizedExpression") || expression.is("TSAsExpression")
        || expression.is("TSSatisfiesExpression") || expression.is("TSTypeAssertion")
        || expression.is("TSNonNullExpression") || expression.is("TSInstantiationExpression") {
        expression.children.len() > 0 && is_callable_initializer(&expression.children[0])
    } else {
        false
    }
}

fn declaration_has_work(declaration: &SyntaxNode) -> (answer: bool)
    ensures
        answer == declaration_works(*declaration),
{
    let parts = &declaration.children;
    let mut index: usize = 0;
    while index < parts.len()
        invariant
            index <= parts@.len(),
            parts@ == declaration.children@,
            forall|earlier: int|
                0 <= earlier < index ==> !declarator_works(#[trigger] parts@[earlier]),
        decreases parts@.len() - index,
    {
        let declarator = &parts[index];
        if declarator.children.len() > 1 && !is_callable_initializer(&declarator.children[1]) {
            assert(declarator_works(declaration.children@[index as int]));
            return true;
        }
        index += 1;
    }
    false
}

fn is_preamble(node: &SyntaxNode) -> (answer: bool)
    ensures
        answer == preamble(*node),
{
    node.is("Hashbang") || node.is("Directive")
}

fn module_statement_has_work(statement: &SyntaxNode) -> (answer: bool)
    ensures
        answer == module_work(*statement),
{
    let parts = &statement.children;
    if is_function_node(statement) || statement.is("Class") || is_import_or_type(statement)
        || statement.is("EmptyStatement") || is_preamble(statement) {
        false
    } else if statement.is("VariableDeclaration") {
        declaration_has_work(statement)
    } else if statement.is("ExportDeclaration") {
        parts.len() > 0 && parts[0].is("VariableDeclaration") && declaration_has_work(&parts[0])
    } else if statement.is("ExportDefaultDeclaration") {
        parts.len() > 0 && !is_function_node(&parts[0]) && !parts[0].is("Class")
    } else {
        true
    }
}

pub(crate) fn find_statements(parts: &Vec<SyntaxNode>) -> (start: usize)
    ensures
        start == statements_from(parts@, 0),
        start <= parts@.len(),
{
    let mut start: usize = 0;
    while start < parts.len() && is_preamble(&parts[start])
        invariant
            start <= parts@.len(),
            statements_from(parts@, 0) == statements_from(parts@, start as nat),
        decreases parts@.len() - start,
    {
        start += 1;
    }
    start
}

fn module_has_work(parts: &Vec<SyntaxNode>) -> (answer: bool)
    ensures
        answer == exists|index: int|
            0 <= index < parts@.len() && module_work(#[trigger] parts@[index]),
{
    let mut index: usize = 0;
    while index < parts.len()
        invariant
            index <= parts@.len(),
            forall|earlier: int|
                0 <= earlier < index ==> !module_work(#[trigger] parts@[earlier]),
        decreases parts@.len() - index,
    {
        if module_statement_has_work(&parts[index]) {
            return true;
        }
        index += 1;
    }
    false
}

fn push_module(program: &SyntaxNode, length: usize, category: Category, output: &mut Vec<Unit>)
    ensures
        unit_views(final(output)@) == unit_views(old(output)@) + module_unit(
            *program,
            length,
            category,
        ),
{
    let ghost held = unit_views(output@);
    let parts = &program.children;
    if module_has_work(parts) {
        let full = ByteRange { start: 0, end: length };
        let first: usize = find_statements(parts);
        let body = if first < parts.len() {
            ByteRange { start: parts[first].start, end: parts[parts.len() - 1].end }
        } else {
            full
        };
        let explicit: Vec<ByteRange> = Vec::new();
        assert(explicit@ =~= Seq::<ByteRange>::empty());
        assert(body == body_range(parts@.skip(first as int), full));
        push_unit(
            output,
            Unit {
                name: "<module>".to_owned(),
                kind: FunctionKind::ModuleInitializer,
                category,
                full,
                declaration: span_declaration(full, body),
                body,
                parameters: 0,
                explicit,
                signals: walk_body(program, 0),
            },
        );
    }
    assert(unit_views(output@) =~= held + module_unit(*program, length, category));
}

/// Collects the units of a module.
pub fn collect_program(
    program: &SyntaxNode,
    length: usize,
    table: &LineTable,
    category: Category,
) -> (output: Vec<Unit>)
    requires
        table.well_formed(),
    ensures
        unit_views(output@) == program_units(*program, length, table.lines@, category),
{
    let mut output: Vec<Unit> = Vec::new();
    assert(unit_views(output@) =~= Seq::<UnitView>::empty());
    push_module(program, length, category, &mut output);
    let context = Context::outermost(category);
    collect_walk(Dialect::JavaScript, program, &context, table, &mut output);
    assert(unit_views(output@) =~= program_units(*program, length, table.lines@, category));
    output
}

}
