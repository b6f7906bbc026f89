//! The callable units of Rust source.
use vstd::prelude::*;
use crate::model::{Category, FunctionKind};
use crate::node_signals::{node_signal, push_node};
use crate::rust::{inline_module, outside_module};
use crate::rust_syntax::{find_part_depth, has_test_only_attribute, rust_part_depth, test_only};
use crate::signals::{Signal, SignalKind};
use crate::spans::{LineSpan, LineTable};
use crate::syntax::{find_last_name, find_named, first_named, last_name, SyntaxNode};
use crate::text::{begins, decimal, push_decimal, starts_with};
use crate::unit_walk::{
    closure_label, collect_walk, label_closure, outermost, push_visit, visit_views, walk_units,
    Context, ContextView, Part, ScopeKind, UnitVisit, UnitVisitView,
};
use crate::units::{
    declaration_range, node_range, push_unit, qualified, qualified_name, span_declaration, span_of,
    unit_views, ByteRange, Unit, UnitView,
};
use crate::walk::{collect_expression, collect_signals, expression_signals, signals, Dialect};

verus! {

/// Whether a node is a function of any kind.
pub open spec fn function_item(node: SyntaxNode) -> bool {
    node.named("ItemFn"@) || node.named("ImplFn"@) || node.named("TraitFn"@)
}

pub(crate) fn is_function_item(node: &SyntaxNode) -> (answer: bool)
    ensures
        answer == function_item(*node),
{
    node.is("ItemFn") || node.is("ImplFn") || node.is("TraitFn")
}

/// Whether a node is a constant or a static.
pub open spec fn constant_item(node: SyntaxNode) -> bool {
    node.named("ItemConst"@) || node.named("ItemStatic"@) || node.named("ImplConst"@)
        || node.named("TraitConst"@)
}

pub(crate) fn is_constant_item(node: &SyntaxNode) -> (answer: bool)
    ensures
        answer == constant_item(*node),
{
    node.is("ItemConst") || node.is("ItemStatic") || node.is("ImplConst") || node.is("TraitConst")
}

/// The parts of a function's signature.
pub open spec fn signature_parts(node: SyntaxNode) -> Seq<SyntaxNode> {
    match first_named(node.children@, "Signature"@, 0) {
        Some(index) => node.children@[index].children@,
        None => Seq::empty(),
    }
}

/// Whether a part of a signature is an input.
pub open spec fn signature_input(part: SyntaxNode) -> bool {
    part.named("Parameter"@) || part.named("Receiver"@)
}

/// How many of the first `count` parts are inputs.
pub open spec fn input_count(parts: Seq<SyntaxNode>, count: nat) -> nat
    decreases count,
{
    if count == 0 {
        0
    } else {
        input_count(parts, (count - 1) as nat) + if signature_input(parts[count - 1]) {
            1nat
        } else {
            0nat
        }
    }
}

/// What the parameters among the first `count` parts span. A receiver does not
/// count.
pub open spec fn parameter_ranges(parts: Seq<SyntaxNode>, count: nat) -> Seq<ByteRange>
    decreases count,
{
    if count == 0 {
        Seq::empty()
    } else {
        let earlier = parameter_ranges(parts, (count - 1) as nat);
        if parts[count - 1].named("Parameter"@) {
            earlier.push(node_range(parts[count - 1]))
        } else {
            earlier
        }
    }
}

/// A signal for each mutable name that a pattern binds.
pub open spec fn mutable_names(node: SyntaxNode) -> Seq<Signal>
    decreases node, node.children@.len() + 1,
{
    let own: Seq<Signal> = if node.named("PatIdent"@) && node.flag {
        seq![node_signal(SignalKind::Mutation, node, 0)]
    } else {
        Seq::empty()
    };
    own + part_mutable_names(node, node.children@.len())
}

/// A signal for each mutable name in the first `count` parts of a pattern.
pub open spec fn part_mutable_names(node: SyntaxNode, count: nat) -> Seq<Signal>
    decreases node, count,
{
    if count == 0 || count > node.children@.len() {
        Seq::empty()
    } else {
        part_mutable_names(node, (count - 1) as nat) + mutable_names(node.children@[count - 1])
    }
}

/// Whether a node is a pattern.
pub open spec fn pattern(node: SyntaxNode) -> bool {
    begins(node.kind@, "Pat"@)
}

/// The mutable names of the pattern among the first `count` parts of a
/// parameter.
pub open spec fn parameter_mutations(parts: Seq<SyntaxNode>, count: nat) -> Seq<Signal>
    decreases count,
{
    if count == 0 {
        Seq::empty()
    } else {
        let earlier = parameter_mutations(parts, (count - 1) as nat);
        if pattern(parts[count - 1]) {
            earlier + mutable_names(parts[count - 1])
        } else {
            earlier
        }
    }
}

/// The mutations that the first `count` parts of a signature allow.
pub open spec fn signature_mutations(parts: Seq<SyntaxNode>, count: nat) -> Seq<Signal>
    decreases count,
{
    if count == 0 {
        Seq::empty()
    } else {
        let earlier = signature_mutations(parts, (count - 1) as nat);
        let part = parts[count - 1];
        if part.named("Receiver"@) && part.flag {
            earlier.push(node_signal(SignalKind::Mutation, part, 0))
        } else if part.named("Parameter"@) {
            earlier + parameter_mutations(part.children@, part.children@.len())
        } else {
            earlier
        }
    }
}

/// The kind of a function by how it is written and by what it stands in.
pub open spec fn item_kind(node: SyntaxNode, place: ScopeKind) -> FunctionKind {
    if node.named("ImplFn"@) {
        FunctionKind::Method
    } else if node.named("TraitFn"@) {
        FunctionKind::TraitMethod
    } else if place == ScopeKind::Function {
        FunctionKind::NestedFunction
    } else {
        FunctionKind::Function
    }
}

/// The category of a node, with what is for tests around it.
pub open spec fn category_of(node: SyntaxNode, context: ContextView) -> Category {
    if test_only(node) {
        Category::Test
    } else {
        context.category
    }
}

/// Where a function starts: at its visibility, or at its signature.
pub open spec fn function_start(node: SyntaxNode, signature: int) -> usize {
    match first_named(node.children@, "Visibility"@, 0) {
        Some(index) => node.children@[index].start,
        None => node.children@[signature].start,
    }
}

/// The unit of a function, where it has a body.
pub open spec fn function_units(node: SyntaxNode, context: ContextView) -> Seq<UnitView> {
    let parts = node.children@;
    match (first_named(parts, "Signature"@, 0), first_named(parts, "Block"@, 0)) {
        (Some(signature), Some(body)) => {
            let start = function_start(node, signature);
            let inputs = signature_parts(node);
            seq![
                UnitView {
                    name: qualified(context.scope, node.text@),
                    kind: item_kind(node, context.place),
                    category: category_of(node, context),
                    full: ByteRange { start, end: parts[body].end },
                    declaration: ByteRange { start, end: parts[signature].end },
                    body: node_range(parts[body]),
                    parameters: input_count(inputs, inputs.len()) as usize,
                    explicit: parameter_ranges(inputs, inputs.len()),
                    signals: signals(Dialect::Rust, parts[body], 0) + signature_mutations(
                        inputs,
                        inputs.len(),
                    ),
                },
            ]
        },
        _ => Seq::empty(),
    }
}

/// The signals of a body that is an expression: a block lists its statements,
/// and anything else is one statement.
pub open spec fn value_signals(body: SyntaxNode, depth: usize) -> Seq<Signal> {
    if body.named("ExprBlock"@) {
        signals(Dialect::Rust, body, depth)
    } else {
        expression_signals(Dialect::Rust, body, depth)
    }
}

/// Whether a constant has a value: its last part.
pub open spec fn has_value(node: SyntaxNode) -> bool {
    node.children@.len() > 0 && begins(node.children@.last().kind@, "Expr"@)
}

/// The unit of the value of a constant or a static.
pub open spec fn constant_units(node: SyntaxNode, context: ContextView) -> Seq<UnitView> {
    if has_value(node) {
        let full = node_range(node);
        let value = node.children@.last();
        seq![
            UnitView {
                name: qualified(context.scope, node.text@),
                kind: if node.named("ItemStatic"@) {
                    FunctionKind::StaticInitializer
                } else {
                    FunctionKind::ConstInitializer
                },
                category: category_of(node, context),
                full,
                declaration: declaration_range(full, node_range(value)),
                body: node_range(value),
                parameters: 0,
                explicit: Seq::empty(),
                signals: value_signals(value, 0),
            },
        ]
    } else {
        Seq::empty()
    }
}

/// What the patterns among the first `count` parts span.
pub open spec fn pattern_ranges(parts: Seq<SyntaxNode>, count: nat) -> Seq<ByteRange>
    decreases count,
{
    if count == 0 {
        Seq::empty()
    } else {
        let earlier = pattern_ranges(parts, (count - 1) as nat);
        if pattern(parts[count - 1]) {
            earlier.push(node_range(parts[count - 1]))
        } else {
            earlier
        }
    }
}

/// The unit of a closure. Its body is its last part.
pub open spec fn closure_units(
    node: SyntaxNode,
    context: ContextView,
    lines: Seq<LineSpan>,
) -> Seq<UnitView> {
    let parts = node.children@;
    if parts.len() == 0 {
        Seq::empty()
    } else {
        let full = node_range(node);
        let explicit = pattern_ranges(parts, parts.len());
        seq![
            UnitView {
                name: qualified(context.scope, closure_label(node, lines)),
                kind: FunctionKind::Closure,
                category: context.category,
                full,
                declaration: declaration_range(full, node_range(parts.last())),
                body: node_range(parts.last()),
                parameters: explicit.len() as usize,
                explicit,
                signals: value_signals(parts.last(), context.depth),
            },
        ]
    }
}

/// The units that a node is itself.
pub open spec fn rust_units(
    node: SyntaxNode,
    context: ContextView,
    lines: Seq<LineSpan>,
) -> Seq<UnitView> {
    if function_item(node) {
        function_units(node, context)
    } else if constant_item(node) {
        constant_units(node, context)
    } else if node.named("ExprClosure"@) {
        closure_units(node, context, lines)
    } else {
        Seq::empty()
    }
}

/// The name of a type, as far as it has a short one.
pub open spec fn short_name(node: SyntaxNode) -> Seq<char>
    decreases node,
{
    if node.named("TypePath"@) {
        last_name(node.names@, "_"@)
    } else if node.named("TypeReference"@) && node.children@.len() > 0 {
        short_name(node.children@.last())
    } else if node.named("TypeTuple"@) {
        "tuple"@ + decimal(node.children@.len())
    } else {
        "_"@
    }
}

/// The last of the first `count` parts that is a type.
pub open spec fn last_type(parts: Seq<SyntaxNode>, count: nat) -> Option<int>
    decreases count,
{
    if count == 0 {
        None
    } else if begins(parts[count - 1].kind@, "Type"@) {
        Some(count - 1)
    } else {
        last_type(parts, (count - 1) as nat)
    }
}

/// What an implementation is called: by the type that it is for, the last of
/// those in its header.
pub open spec fn implemented_name(node: SyntaxNode) -> Seq<char> {
    match last_type(node.children@, node.children@.len()) {
        Some(index) => short_name(node.children@[index]),
        None => "_"@,
    }
}

/// Where the parts of a node stand.
pub open spec fn parts_context(
    node: SyntaxNode,
    context: ContextView,
    lines: Seq<LineSpan>,
) -> ContextView {
    if function_item(node) {
        ContextView {
            category: category_of(node, context),
            ..context.inside(0, node.text@, ScopeKind::Function, Part::Whole)
        }
    } else if inline_module(node) || node.named("ItemTrait"@) {
        ContextView {
            category: category_of(node, context),
            ..context.inside(0, node.text@, context.place, Part::Whole)
        }
    } else if node.named("ItemImpl"@) {
        ContextView {
            category: category_of(node, context),
            ..context.inside(0, implemented_name(node), context.place, Part::Whole)
        }
    } else if node.named("ExprClosure"@) {
        context.inside(context.depth, closure_label(node, lines), context.place, Part::Whole)
    } else if constant_item(node) || node.named("StmtItem"@) {
        context.part(0, None, Part::Whole)
    } else {
        context.part(context.depth, None, Part::Whole)
    }
}

/// Visits of the first `count` parts of a node.
pub open spec fn rust_visits(node: SyntaxNode, context: ContextView, count: nat) -> Seq<UnitVisitView>
    decreases count,
{
    if count == 0 {
        Seq::empty()
    } else {
        let earlier = rust_visits(node, context, (count - 1) as nat);
        if inline_module(node) && node.children@[count - 1].named("Attribute"@) {
            earlier
        } else {
            let depth = rust_part_depth(node, count - 1, context.depth);
            earlier.push(
                UnitVisitView { child: count - 1, context: context.part(depth, None, Part::Whole) },
            )
        }
    }
}

/// The parts of a node that are met after its own units.
pub open spec fn rust_after(
    node: SyntaxNode,
    context: ContextView,
    lines: Seq<LineSpan>,
) -> Seq<UnitVisitView> {
    if outside_module(node) {
        Seq::empty()
    } else {
        rust_visits(node, parts_context(node, context, lines), node.children@.len())
    }
}

/// The units of a file.
pub open spec fn file_units(file: SyntaxNode, lines: Seq<LineSpan>, category: Category) -> Seq<
    UnitView,
> {
    walk_units(Dialect::Rust, file, outermost(category), lines)
}

pub(crate) fn is_pattern(node: &SyntaxNode) -> (answer: bool)
    ensures
        answer == pattern(*node),
{
    starts_with(node.kind.as_str(), "Pat")
}

fn push_mutable_names(node: &SyntaxNode, list: &mut Vec<Signal>)
    ensures
        final(list)@ == old(list)@ + mutable_names(*node),
    decreases node,
{
    let ghost held = list@;
    if node.is("PatIdent") && node.flag {
        push_node(list, SignalKind::Mutation, node, 0);
    }
    let ghost own = list@;
    let parts = &node.children;
    let mut index: usize = 0;
    assert(list@ =~= own + part_mutable_names(*node, 0));
    while index < parts.len()
        invariant
            index <= parts@.len(),
            parts@ == node.children@,
            list@ == own + part_mutable_names(*node, index as nat),
        decreases parts@.len() - index,
    {
        push_mutable_names(&parts[index], list);
        index += 1;
        assert(list@ =~= own + part_mutable_names(*node, index as nat));
    }
    assert(list@ =~= held + mutable_names(*node));
}

fn push_parameter_mutations(parts: &Vec<SyntaxNode>, list: &mut Vec<Signal>)
    ensures
        final(list)@ == old(list)@ + parameter_mutations(parts@, parts@.len()),
{
    let ghost held = list@;
    let mut index: usize = 0;
    assert(list@ =~= held + parameter_mutations(parts@, 0));
    while index < parts.len()
        invariant
            index <= parts@.len(),
            list@ == held + parameter_mutations(parts@, index as nat),
        decreases parts@.len() - index,
    {
        if is_pattern(&parts[index]) {
            push_mutable_names(&parts[index], list);
        }
        index += 1;
        assert(list@ =~= held + parameter_mutations(parts@, index as nat));
    }
}

fn push_signature_mutations(parts: &Vec<SyntaxNode>, list: &mut Vec<Signal>)
    ensures
        final(list)@ == old(list)@ + signature_mutations(parts@, parts@.len()),
{
    let ghost held = list@;
    let mut index: usize = 0;
    assert(list@ =~= held + signature_mutations(parts@, 0));
    while index < parts.len()
        invariant
            index <= parts@.len(),
            list@ == held + signature_mutations(parts@, index as nat),
        decreases parts@.len() - index,
    {
        let part = &parts[index];
        if part.is("Receiver") && part.flag {
            push_node(list, SignalKind::Mutation, part, 0);
        } else if part.is("Parameter") {
            push_parameter_mutations(&part.children, list);
        }
        index += 1;
        assert(list@ =~= held + signature_mutations(parts@, index as nat));
    }
}

fn list_inputs(parts: &Vec<SyntaxNode>) -> (result: (usize, Vec<ByteRange>))
    ensures
        result.0 == input_count(parts@, parts@.len()) as usize,
        result.1@ == parameter_ranges(parts@, parts@.len()),
{
    let mut number: usize = 0;
    let mut ranges: Vec<ByteRange> = Vec::new();
    let mut index: usize = 0;
    while index < parts.len()
        invariant
            index <= parts@.len(),
            number <= index,
            number == input_count(parts@, index as nat),
            ranges@ == parameter_ranges(parts@, index as nat),
        decreases parts@.len() - index,
    {
        let part = &parts[index];
        if part.is("Parameter") {
            number += 1;
            ranges.push(span_of(part));
        } else if part.is("Receiver") {
            number += 1;
        }
        index += 1;
    }
    (number, ranges)
}

fn find_item_kind(node: &SyntaxNode, place: ScopeKind) -> (kind: FunctionKind)
    ensures
        kind == item_kind(*node, place),
{
    if node.is("ImplFn") {
        FunctionKind::Method
    } else if node.is("TraitFn") {
        FunctionKind::TraitMethod
    } else if place == ScopeKind::Function {
        FunctionKind::NestedFunction
    } else {
        FunctionKind::Function
    }
}

fn find_category(node: &SyntaxNode, context: &Context) -> (category: Category)
    ensures
        category == category_of(*node, context@),
{
    if has_test_only_attribute(node) {
        Category::Test
    } else {
        context.category
    }
}

fn push_function(node: &SyntaxNode, context: &Context, output: &mut Vec<Unit>)
    ensures
        unit_views(final(output)@) == unit_views(old(output)@) + function_units(*node, context@),
{
    let ghost held = unit_views(output@);
    let parts = &node.children;
    if let Some(signature) = find_named(parts, "Signature") {
        if let Some(body) = find_named(parts, "Block") {
            let start: usize = match find_named(parts, "Visibility") {
                Some(index) => parts[index].start,
                None => parts[signature].start,
            };
            let inputs = &parts[signature].children;
            let (parameters, explicit) = list_inputs(inputs);
            let mut list: Vec<Signal> = Vec::new();
            collect_signals(Dialect::Rust, &parts[body], 0, &mut list);
            push_signature_mutations(inputs, &mut list);
            assert(list@ =~= signals(Dialect::Rust, parts@[body as int], 0) + signature_mutations(
                inputs@,
                inputs@.len(),
            ));
            push_unit(
                output,
                Unit {
                    name: qualified_name(&context.scope, node.text.as_str()),
                    kind: find_item_kind(node, context.place),
                    category: find_category(node, context),
                    full: ByteRange { start, end: parts[body].end },
                    declaration: ByteRange { start, end: parts[signature].end },
                    body: span_of(&parts[body]),
                    parameters,
                    explicit,
                    signals: list,
                },
            );
        }
    }
    assert(unit_views(output@) =~= held + function_units(*node, context@));
}

/// The signals of a body that is an expression.
pub(crate) fn list_value_signals(body: &SyntaxNode, depth: usize) -> (list: Vec<Signal>)
    ensures
        list@ == value_signals(*body, depth),
{
    let mut list: Vec<Signal> = Vec::new();
    if body.is("ExprBlock") {
        collect_signals(Dialect::Rust, body, depth, &mut list);
    } else {
        collect_expression(Dialect::Rust, body, depth, &mut list);
    }
    assert(list@ =~= value_signals(*body, depth));
    list
}

pub(crate) fn find_constant_value(node: &SyntaxNode) -> (found: bool)
    ensures
        found == has_value(*node),
{
    node.children.len() > 0 && starts_with(
        node.children[node.children.len() - 1].kind.as_str(),
        "Expr",
    )
}

fn push_constant(node: &SyntaxNode, context: &Context, output: &mut Vec<Unit>)
    ensures
        unit_views(final(output)@) == unit_views(old(output)@) + constant_units(*node, context@),
{
    let ghost held = unit_views(output@);
    if find_constant_value(node) {
        let full = span_of(node);
        let value = &node.children[node.children.len() - 1];
        let body = span_of(value);
        let explicit: Vec<ByteRange> = Vec::new();
        assert(explicit@ =~= Seq::<ByteRange>::empty());
        push_unit(
            output,
            Unit {
                name: qualified_name(&context.scope, node.text.as_str()),
                kind: if node.is("ItemStatic") {
                    FunctionKind::StaticInitializer
                } else {
                    FunctionKind::ConstInitializer
                },
                category: find_category(node, context),
                full,
                declaration: span_declaration(full, body),
                body,
                parameters: 0,
                explicit,
                signals: list_value_signals(value, 0),
            },
        );
    }
    assert(unit_views(output@) =~= held + constant_units(*node, context@));
}

fn list_pattern_ranges(parts: &Vec<SyntaxNode>) -> (ranges: Vec<ByteRange>)
    ensures
        ranges@ == pattern_ranges(parts@, parts@.len()),
{
    let mut ranges: Vec<ByteRange> = Vec::new();
    let mut index: usize = 0;
    while index < parts.len()
        invariant
            index <= parts@.len(),
            ranges@ == pattern_ranges(parts@, index as nat),
        decreases parts@.len() - index,
    {
        if is_pattern(&parts[index]) {
            ranges.push(span_of(&parts[index]));
        }
        index += 1;
    }
    ranges
}

fn push_closure(node: &SyntaxNode, context: &Context, table: &LineTable, output: &mut Vec<Unit>)
    requires
        table.well_formed(),
    ensures
        unit_views(final(output)@) == unit_views(old(output)@) + closure_units(
            *node,
            context@,
            table.lines@,
        ),
{
    let ghost held = unit_views(output@);
    let parts = &node.children;
    if parts.len() > 0 {
        let full = span_of(node);
        let value = &parts[parts.len() - 1];
        let body = span_of(value);
        let explicit = list_pattern_ranges(parts);
        let label = label_closure(node, table);
        push_unit(
            output,
            Unit {
                name: qualified_name(&context.scope, label.as_str()),
                kind: FunctionKind::Closure,
                category: context.category,
                full,
                declaration: span_declaration(full, body),
                body,
                parameters: explicit.len(),
                explicit,
                signals: list_value_signals(value, context.depth),
            },
        );
    }
    assert(unit_views(output@) =~= held + closure_units(*node, context@, table.lines@));
}

pub(crate) fn push_rust_units(
    node: &SyntaxNode,
    context: &Context,
    table: &LineTable,
    output: &mut Vec<Unit>,
)
    requires
        table.well_formed(),
    ensures
        unit_views(final(output)@) == unit_views(old(output)@) + rust_units(
            *node,
            context@,
            table.lines@,
        ),
{
    if is_function_item(node) {
        push_function(node, context, output);
    } else if is_constant_item(node) {
        push_constant(node, context, output);
    } else if node.is("ExprClosure") {
        push_closure(node, context, table, output);
    } else {
        assert(unit_views(output@) =~= unit_views(output@) + Seq::<UnitView>::empty());
    }
}

fn name_type(node: &SyntaxNode) -> (name: String)
    ensures
        name@ == short_name(*node),
    decreases node,
{
    if node.is("TypePath") {
        find_last_name(&node.names, "_")
    } else if node.is("TypeReference") && node.children.len() > 0 {
        name_type(&node.children[node.children.len() - 1])
    } else if node.is("TypeTuple") {
        let mut name = "tuple".to_owned();
        push_decimal(&mut name, node.children.len());
        name
    } else {
        "_".to_owned()
    }
}

fn name_implemented(node: &SyntaxNode) -> (name: String)
    ensures
        name@ == implemented_name(*node),
{
    let parts = &node.children;
    let mut count: usize = parts.len();
    while count > 0
        invariant
            count <= parts@.len(),
            parts@ == node.children@,
            last_type(parts@, parts@.len()) == last_type(parts@, count as nat),
        decreases count,
    {
        if starts_with(parts[count - 1].kind.as_str(), "Type") {
            return name_type(&parts[count - 1]);
        }
        count -= 1;
    }
    "_".to_owned()
}

fn make_parts_context(node: &SyntaxNode, context: &Context, table: &LineTable) -> (inner: Context)
    requires
        table.well_formed(),
    ensures
        inner@ == parts_context(*node, context@, table.lines@),
{
    if is_function_item(node) {
        let mut inner = context.for_inside(
            0,
            node.text.as_str(),
            ScopeKind::Function,
            Part::Whole,
        );
        inner.category = find_category(node, context);
        inner
    } else if (node.is("ItemMod") && node.flag) || node.is("ItemTrait") {
        let mut inner = context.for_inside(0, node.text.as_str(), context.place, Part::Whole);
        inner.category = find_category(node, context);
        inner
    } else if node.is("ItemImpl") {
        let name = name_implemented(node);
        let mut inner = context.for_inside(0, name.as_str(), context.place, Part::Whole);
        inner.category = find_category(node, context);
        inner
    } else if node.is("ExprClosure") {
        let label = label_closure(node, table);
        context.for_inside(context.depth, label.as_str(), context.place, Part::Whole)
    } else if is_constant_item(node) || node.is("StmtItem") {
        context.for_part(0, None, Part::Whole)
    } else {
        context.for_part(context.depth, None, Part::Whole)
    }
}

pub(crate) fn list_rust_after(node: &SyntaxNode, context: &Context, table: &LineTable) -> (list:
    Vec<UnitVisit>)
    requires
        table.well_formed(),
    ensures
        visit_views(list@) == rust_after(*node, context@, table.lines@),
{
    let mut list: Vec<UnitVisit> = Vec::new();
    assert(visit_views(list@) =~= Seq::<UnitVisitView>::empty());
    if node.is("ItemMod") && !node.flag {
        return list;
    }
    let inner = make_parts_context(node, context, table);
    let parts = &node.children;
    let module: bool = node.is("ItemMod") && node.flag;
    let mut child: usize = 0;
    while child < parts.len()
        invariant
            child <= parts@.len(),
            parts@ == node.children@,
            module == inline_module(*node),
            visit_views(list@) == rust_visits(*node, inner@, child as nat),
        decreases parts@.len() - child,
    {
        if !(module && parts[child].is("Attribute")) {
            let depth: usize = find_part_depth(node, child, inner.depth);
            push_visit(&mut list, child, inner.for_part(depth, None, Part::Whole));
        }
        child += 1;
    }
    list
}

/// Collects the units of a file.
pub fn collect_file(file: &SyntaxNode, table: &LineTable, category: Category) -> (output: Vec<Unit>)
    requires
        table.well_formed(),
    ensures
        unit_views(output@) == file_units(*file, table.lines@, category),
{
    let mut output: Vec<Unit> = Vec::new();
    let context = Context::outermost(category);
    assert(unit_views(output@) =~= Seq::<UnitView>::empty());
    collect_walk(Dialect::Rust, file, &context, table, &mut output);
    assert(unit_views(output@) =~= file_units(*file, table.lines@, category));
    output
}

}
