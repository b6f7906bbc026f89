//! What the nodes of JavaScript and TypeScript syntax trees mean for the
//! structural score.
use vstd::prelude::*;
use crate::node_signals::{
    links, node_signal, part_signals, push_node, push_parts, push_repeated, repeated_signal,
};
use crate::signals::{deeper, go_deeper, Signal, SignalKind};
use crate::syntax::{count_named, named_count, SyntaxNode};
use crate::text::same_text;
use crate::walk::Step;

verus! {

/// Whether a node is a statement that counts.
pub open spec fn counted_statement(node: SyntaxNode) -> bool {
    node.named("VariableDeclaration"@) || node.named("ExpressionStatement"@)
        || node.named("IfStatement"@) || node.named("DoWhileStatement"@)
        || node.named("WhileStatement"@) || node.named("ForStatement"@)
        || node.named("ForInStatement"@) || node.named("ForOfStatement"@)
        || node.named("ReturnStatement"@) || node.named("SwitchStatement"@)
        || node.named("ThrowStatement"@) || node.named("TryStatement"@)
        || node.named("WithStatement"@) || node.named("BreakStatement"@)
        || node.named("ContinueStatement"@) || node.named("DebuggerStatement"@)
        || node.named("LabeledStatement"@) || node.named("ExportDeclaration"@)
}

fn is_counted_statement(node: &SyntaxNode) -> (answer: bool)
    ensures
        answer == counted_statement(*node),
{
    node.is("VariableDeclaration") || node.is("ExpressionStatement") || node.is("IfStatement")
        || node.is("DoWhileStatement") || node.is("WhileStatement") || node.is("ForStatement")
        || node.is("ForInStatement") || node.is("ForOfStatement") || node.is("ReturnStatement")
        || node.is("SwitchStatement") || node.is("ThrowStatement") || node.is("TryStatement")
        || node.is("WithStatement") || node.is("BreakStatement") || node.is("ContinueStatement")
        || node.is("DebuggerStatement") || node.is("LabeledStatement")
        || node.is("ExportDeclaration")
}

/// Whether a node is a function that is no arrow function.
pub open spec fn function_node(node: SyntaxNode) -> bool {
    node.named("Function"@)
}

pub(crate) fn is_function_node(node: &SyntaxNode) -> (answer: bool)
    ensures
        answer == function_node(*node),
{
    node.is("Function")
}

/// Whether a node is a function that stands for its value. A function carries
/// the answer as its text.
pub open spec fn function_expression(node: SyntaxNode) -> bool {
    node.named("Function"@) && node.text@ == "true"@
}

pub(crate) fn is_function_expression(node: &SyntaxNode) -> (answer: bool)
    ensures
        answer == function_expression(*node),
{
    node.is("Function") && same_text(node.text.as_str(), "true")
}

/// Whether a node is a function that is declared under its name.
pub open spec fn function_declaration(node: SyntaxNode) -> bool {
    node.named("Function"@) && node.text@ != "true"@
}

pub(crate) fn is_function_declaration(node: &SyntaxNode) -> (answer: bool)
    ensures
        answer == function_declaration(*node),
{
    node.is("Function") && !same_text(node.text.as_str(), "true")
}

/// Whether a node imports, exports under another name, or declares in type space.
pub open spec fn import_or_type(node: SyntaxNode) -> bool {
    node.named("ImportDeclaration"@) || node.named("ExportNamedDeclaration"@)
        || node.named("ExportFromDeclaration"@) || node.named("ExportAllDeclaration"@)
        || node.named("TSTypeAliasDeclaration"@) || node.named("TSInterfaceDeclaration"@)
        || node.named("TSEnumDeclaration"@) || node.named("TSModuleDeclaration"@)
        || node.named("TSGlobalDeclaration"@) || node.named("TSImportEqualsDeclaration"@)
}

pub(crate) fn is_import_or_type(node: &SyntaxNode) -> (answer: bool)
    ensures
        answer == import_or_type(*node),
{
    node.is("ImportDeclaration") || node.is("ExportNamedDeclaration")
        || node.is("ExportFromDeclaration") || node.is("ExportAllDeclaration")
        || node.is("TSTypeAliasDeclaration") || node.is("TSInterfaceDeclaration")
        || node.is("TSEnumDeclaration") || node.is("TSModuleDeclaration")
        || node.is("TSGlobalDeclaration") || node.is("TSImportEqualsDeclaration")
}

/// Whether a node is a decision and no counted loop.
pub open spec fn lone_branch(node: SyntaxNode) -> bool {
    node.named("IfStatement"@) || node.named("DoWhileStatement"@) || node.named("WhileStatement"@)
        || node.named("WithStatement"@) || node.named("ConditionalExpression"@)
}

fn is_lone_branch(node: &SyntaxNode) -> (answer: bool)
    ensures
        answer == lone_branch(*node),
{
    node.is("IfStatement") || node.is("DoWhileStatement") || node.is("WhileStatement")
        || node.is("WithStatement") || node.is("ConditionalExpression")
}

/// Whether a node is a counted loop.
pub open spec fn counted_loop(node: SyntaxNode) -> bool {
    node.named("ForStatement"@) || node.named("ForInStatement"@) || node.named("ForOfStatement"@)
}

pub(crate) fn is_counted_loop(node: &SyntaxNode) -> (answer: bool)
    ensures
        answer == counted_loop(*node),
{
    node.is("ForStatement") || node.is("ForInStatement") || node.is("ForOfStatement")
}

/// Whether an expression is one operation.
pub open spec fn one_operation(node: SyntaxNode) -> bool {
    node.named("BinaryExpression"@) || node.named("UnaryExpression"@)
        || node.named("ComputedMemberExpression"@) || node.named("PrivateInExpression"@)
}

fn is_one_operation(node: &SyntaxNode) -> (answer: bool)
    ensures
        answer == one_operation(*node),
{
    node.is("BinaryExpression") || node.is("UnaryExpression")
        || node.is("ComputedMemberExpression") || node.is("PrivateInExpression")
}

/// Whether an expression is one call.
pub open spec fn one_call(node: SyntaxNode) -> bool {
    node.named("CallExpression"@) || node.named("NewExpression"@)
        || node.named("TaggedTemplateExpression"@) || node.named("ImportExpression"@)
}

fn is_one_call(node: &SyntaxNode) -> (answer: bool)
    ensures
        answer == one_call(*node),
{
    node.is("CallExpression") || node.is("NewExpression") || node.is("TaggedTemplateExpression")
        || node.is("ImportExpression")
}

/// The signals of a node beyond that it is a statement.
pub open spec fn javascript_particular(node: SyntaxNode, depth: usize) -> Seq<Signal> {
    let parts = node.children@;
    if lone_branch(node) {
        seq![node_signal(SignalKind::Branch, node, depth)]
    } else if counted_loop(node) {
        seq![
            node_signal(SignalKind::Branch, node, depth),
            node_signal(SignalKind::Loop, node, depth),
        ]
    } else if node.named("SwitchStatement"@) {
        seq![node_signal(SignalKind::Branch, node, depth)] + part_signals(
            SignalKind::MatchArm,
            parts,
            "SwitchCase"@,
            depth,
            parts.len(),
        )
    } else if node.named("ReturnStatement"@) {
        seq![node_signal(SignalKind::Return, node, depth)]
    } else if node.named("ArrowFunctionExpression"@) || function_expression(node) {
        seq![node_signal(SignalKind::Closure, node, depth)]
    } else if one_operation(node) {
        seq![node_signal(SignalKind::Operation, node, depth)]
    } else if node.named("AssignmentExpression"@) || node.named("UpdateExpression"@) {
        seq![
            node_signal(SignalKind::Operation, node, depth),
            node_signal(SignalKind::Mutation, node, depth),
        ]
    } else if node.named("LogicalExpression"@) || node.named("ChainExpression"@) {
        seq![node_signal(SignalKind::BooleanOperator, node, depth)]
    } else if node.named("SequenceExpression"@) {
        repeated_signal(SignalKind::Operation, node, depth, links(parts.len()))
    } else if one_call(node) {
        seq![node_signal(SignalKind::CallSite, node, depth)]
    } else {
        Seq::empty()
    }
}

/// The signals that a node sends itself.
pub open spec fn javascript_own(node: SyntaxNode, depth: usize) -> Seq<Signal> {
    let first: Seq<Signal> = if counted_statement(node) {
        seq![node_signal(SignalKind::Statement, node, depth)]
    } else {
        Seq::empty()
    };
    first + javascript_particular(node, depth)
}

/// Whether a part of a node is an element of a chain or what is assigned to,
/// and so no expression in its own right.
pub open spec fn indirect(node: SyntaxNode, child: int) -> bool {
    if node.named("ArrayAssignmentTarget"@) {
        true
    } else if node.named("AssignmentTargetPropertyProperty"@) {
        child == 1
    } else if node.named("ChainExpression"@) || node.named("AssignmentExpression"@) || node.named(
        "UpdateExpression"@,
    ) || node.named("ForInStatement"@) || node.named("ForOfStatement"@) || node.named(
        "AssignmentTargetWithDefault"@,
    ) || node.named("AssignmentTargetRest"@) {
        child == 0
    } else {
        false
    }
}

/// Whether a part of a node is a declaration of variables that is no statement.
pub open spec fn declared_within(node: SyntaxNode, child: int) -> bool {
    &&& node.children@[child].named("VariableDeclaration"@)
    &&& node.named("ExportDeclaration"@) || (counted_loop(node) && child == 0
        && node.children@.len() > 1)
}

/// Whether what a part of a node would send itself is left out.
pub open spec fn left_out(node: SyntaxNode, child: int) -> bool {
    ||| declared_within(node, child)
    ||| indirect(node, child) && node.children@[child].named("ComputedMemberExpression"@)
}

/// Whether the walk ends at a node.
pub open spec fn closed_off(node: SyntaxNode) -> bool {
    ||| function_node(node)
    ||| import_or_type(node)
    ||| node.named("ArrowFunctionExpression"@)
    ||| node.named("Class"@)
    ||| node.named("ExportDefaultDeclaration"@)
}

/// Whether the walk passes over a part of a node.
pub open spec fn passed_over(node: SyntaxNode, child: int) -> bool {
    let parts = node.children@;
    if node.named("VariableDeclarator"@) {
        child == 0
    } else if node.named("CatchClause"@) || node.named("FormalParameterRest"@) {
        child != parts.len() - 1
    } else if node.named("FormalParameter"@) {
        child != parts.len() - 1 || named_count(parts, "Decorator"@, parts.len()) + 1
            == parts.len()
    } else {
        false
    }
}

/// Whether a part of a node stands one branch deeper than the node.
pub open spec fn within_branch(node: SyntaxNode, child: int) -> bool {
    let parts = node.children@;
    if node.named("IfStatement"@) {
        child == 1 || (child == 2 && !parts[child].named("IfStatement"@))
    } else if node.named("DoWhileStatement"@) {
        child == 0
    } else if node.named("WhileStatement"@) || node.named("WithStatement"@) || node.named(
        "SwitchStatement"@,
    ) || node.named("ConditionalExpression"@) {
        child > 0
    } else if counted_loop(node) {
        child == parts.len() - 1
    } else if node.named("TryStatement"@) {
        !parts[child].named("CatchClause"@)
    } else {
        node.named("CatchClause"@)
    }
}

/// The step from a node to one of its parts, where the walk goes there.
pub open spec fn javascript_step(node: SyntaxNode, child: int, depth: usize) -> Option<Step> {
    if passed_over(node, child) {
        None
    } else {
        Some(
            Step {
                child: child as usize,
                depth: if within_branch(node, child) {
                    deeper(depth)
                } else {
                    depth
                },
                branch: node.named("TryStatement"@) && node.children@[child].named("CatchClause"@),
                quiet: left_out(node, child),
            },
        )
    }
}

/// The steps to the first `count` parts of a node.
pub open spec fn javascript_part_steps(node: SyntaxNode, depth: usize, count: nat) -> Seq<Step>
    decreases count,
{
    if count == 0 {
        Seq::empty()
    } else {
        let earlier = javascript_part_steps(node, depth, (count - 1) as nat);
        match javascript_step(node, count - 1, depth) {
            Some(step) => earlier.push(step),
            None => earlier,
        }
    }
}

/// How a walk for signals goes on from a node.
pub open spec fn javascript_steps(node: SyntaxNode, depth: usize) -> Seq<Step> {
    if closed_off(node) {
        Seq::empty()
    } else {
        javascript_part_steps(node, depth, node.children@.len())
    }
}

pub(crate) fn push_javascript_signals(node: &SyntaxNode, depth: usize, output: &mut Vec<Signal>)
    ensures
        final(output)@ == old(output)@ + javascript_own(*node, depth),
{
    let ghost start = output@;
    if is_counted_statement(node) {
        push_node(output, SignalKind::Statement, node, depth);
    }
    let ghost held = output@;
    let parts = &node.children;
    let linked: usize = if parts.len() > 0 {
        parts.len() - 1
    } else {
        0
    };
    if is_lone_branch(node) {
        push_node(output, SignalKind::Branch, node, depth);
    } else if is_counted_loop(node) {
        push_node(output, SignalKind::Branch, node, depth);
        push_node(output, SignalKind::Loop, node, depth);
    } else if node.is("SwitchStatement") {
        push_node(output, SignalKind::Branch, node, depth);
        push_parts(output, SignalKind::MatchArm, parts, "SwitchCase", depth);
    } else if node.is("ReturnStatement") {
        push_node(output, SignalKind::Return, node, depth);
    } else if node.is("ArrowFunctionExpression") || is_function_expression(node) {
        push_node(output, SignalKind::Closure, node, depth);
    } else if is_one_operation(node) {
        push_node(output, SignalKind::Operation, node, depth);
    } else if node.is("AssignmentExpression") || node.is("UpdateExpression") {
        push_node(output, SignalKind::Operation, node, depth);
        push_node(output, SignalKind::Mutation, node, depth);
    } else if node.is("LogicalExpression") || node.is("ChainExpression") {
        push_node(output, SignalKind::BooleanOperator, node, depth);
    } else if node.is("SequenceExpression") {
        push_repeated(output, SignalKind::Operation, node, depth, linked);
    } else if is_one_call(node) {
        push_node(output, SignalKind::CallSite, node, depth);
    }
    assert(output@ =~= held + javascript_particular(*node, depth));
    assert(output@ =~= start + javascript_own(*node, depth));
}

pub(crate) fn is_indirect(node: &SyntaxNode, child: usize) -> (answer: bool)
    ensures
        answer == indirect(*node, child as int),
{
    if node.is("ArrayAssignmentTarget") {
        true
    } else if node.is("AssignmentTargetPropertyProperty") {
        child == 1
    } else if node.is("ChainExpression") || node.is("AssignmentExpression") || node.is(
        "UpdateExpression",
    ) || node.is("ForInStatement") || node.is("ForOfStatement") || node.is(
        "AssignmentTargetWithDefault",
    ) || node.is("AssignmentTargetRest") {
        child == 0
    } else {
        false
    }
}

fn is_left_out(node: &SyntaxNode, child: usize) -> (answer: bool)
    requires
        child < node.children@.len(),
    ensures
        answer == left_out(*node, child as int),
{
    let part = &node.children[child];
    if part.is("VariableDeclaration") && (node.is("ExportDeclaration") || (is_counted_loop(node)
        && child == 0 && node.children.len() > 1)) {
        return true;
    }
    is_indirect(node, child) && part.is("ComputedMemberExpression")
}

pub(crate) fn is_closed_off(node: &SyntaxNode) -> (answer: bool)
    ensures
        answer == closed_off(*node),
{
    is_function_node(node) || is_import_or_type(node) || node.is("ArrowFunctionExpression")
        || node.is("Class") || node.is("ExportDefaultDeclaration")
}

pub(crate) fn is_passed_over(node: &SyntaxNode, child: usize) -> (answer: bool)
    requires
        child < node.children@.len(),
    ensures
        answer == passed_over(*node, child as int),
{
    let parts = &node.children;
    if node.is("VariableDeclarator") {
        child == 0
    } else if node.is("CatchClause") || node.is("FormalParameterRest") {
        child != parts.len() - 1
    } else if node.is("FormalParameter") {
        child != parts.len() - 1 || count_named(parts, "Decorator") == parts.len() - 1
    } else {
        false
    }
}

fn is_within_branch(node: &SyntaxNode, child: usize) -> (answer: bool)
    requires
        child < node.children@.len(),
    ensures
        answer == within_branch(*node, child as int),
{
    let parts = &node.children;
    if node.is("IfStatement") {
        child == 1 || (child == 2 && !parts[child].is("IfStatement"))
    } else if node.is("DoWhileStatement") {
        child == 0
    } else if node.is("WhileStatement") || node.is("WithStatement") || node.is("SwitchStatement")
        || node.is("ConditionalExpression") {
        child > 0
    } else if is_counted_loop(node) {
        child == parts.len() - 1
    } else if node.is("TryStatement") {
        !parts[child].is("CatchClause")
    } else {
        node.is("CatchClause")
    }
}

pub(crate) fn list_javascript_parts(node: &SyntaxNode, depth: usize) -> (list: Vec<Step>)
    ensures
        list@ == javascript_part_steps(*node, depth, node.children@.len()),
{
    let mut list: Vec<Step> = Vec::new();
    let parts = &node.children;
    let mut child: usize = 0;
    while child < parts.len()
        invariant
            child <= parts@.len(),
            parts@ == node.children@,
            list@ == javascript_part_steps(*node, depth, child as nat),
        decreases parts@.len() - child,
    {
        if !is_passed_over(node, child) {
            let part_depth: usize = if is_within_branch(node, child) {
                go_deeper(depth)
            } else {
                depth
            };
            list.push(
                Step {
                    child,
                    depth: part_depth,
                    branch: node.is("TryStatement") && parts[child].is("CatchClause"),
                    quiet: is_left_out(node, child),
                },
            );
        }
        child += 1;
    }
    list
}

pub(crate) fn list_javascript_steps(node: &SyntaxNode, depth: usize) -> (list: Vec<Step>)
    ensures
        list@ == javascript_steps(*node, depth),
{
    if is_closed_off(node) {
        return Vec::new();
    }
    list_javascript_parts(node, depth)
}

}
