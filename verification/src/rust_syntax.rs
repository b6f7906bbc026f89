//! What the nodes of Rust syntax trees mean for the structural score, and
//! which of them are for tests alone.
use vstd::prelude::*;
use crate::node_signals::{node_signal, part_signals, push_node, push_parts};
use crate::signals::{deeper, go_deeper, Signal, SignalKind};
use crate::syntax::{
    count_named, find_last_name, is_written, last_name, named_count, written, SyntaxNode,
};
use crate::text::same_text;
use crate::walk::Step;

verus! {

/// How many attributes a node has. They come before its other parts.
pub open spec fn attribute_count(node: SyntaxNode) -> nat {
    named_count(node.children@, "Attribute"@, node.children@.len())
}

pub(crate) fn count_attributes(node: &SyntaxNode) -> (number: usize)
    ensures
        number == attribute_count(*node),
{
    count_named(&node.children, "Attribute")
}

/// Whether a `let` statement has an `else` block.
pub open spec fn let_else(node: SyntaxNode) -> bool {
    node.named("StmtLocal"@) && node.children@.len() == attribute_count(node) + 3
}

fn is_let_else(node: &SyntaxNode) -> (answer: bool)
    ensures
        answer == let_else(*node),
{
    if !node.is("StmtLocal") {
        return false;
    }
    let attributes: usize = count_attributes(node);
    node.children.len() >= attributes && node.children.len() - attributes == 3
}

/// Whether an arm of a match has a guard.
pub open spec fn guarded(node: SyntaxNode) -> bool {
    node.named("Arm"@) && node.children@.len() == attribute_count(node) + 3
}

fn is_guarded(node: &SyntaxNode) -> (answer: bool)
    ensures
        answer == guarded(*node),
{
    if !node.is("Arm") {
        return false;
    }
    let attributes: usize = count_attributes(node);
    node.children.len() >= attributes && node.children.len() - attributes == 3
}

/// Whether a node is a loop.
pub open spec fn loop_node(node: SyntaxNode) -> bool {
    node.named("ExprLoop"@) || node.named("ExprForLoop"@) || node.named("ExprWhile"@)
}

fn is_loop_node(node: &SyntaxNode) -> (answer: bool)
    ensures
        answer == loop_node(*node),
{
    node.is("ExprLoop") || node.is("ExprForLoop") || node.is("ExprWhile")
}

/// Whether an operator decides whether its right side is looked at.
pub open spec fn short_circuit(operator: Seq<char>) -> bool {
    operator == "&&"@ || operator == "||"@
}

/// Whether an operator assigns to its left side.
pub open spec fn compound_assignment(operator: Seq<char>) -> bool {
    operator == "+="@ || operator == "-="@ || operator == "*="@ || operator == "/="@ || operator
        == "%="@ || operator == "^="@ || operator == "&="@ || operator == "|="@ || operator
        == "<<="@ || operator == ">>="@
}

fn is_short_circuit(operator: &str) -> (answer: bool)
    ensures
        answer == short_circuit(operator@),
{
    same_text(operator, "&&") || same_text(operator, "||")
}

fn is_compound_assignment(operator: &str) -> (answer: bool)
    ensures
        answer == compound_assignment(operator@),
{
    same_text(operator, "+=") || same_text(operator, "-=") || same_text(operator, "*=")
        || same_text(operator, "/=") || same_text(operator, "%=") || same_text(operator, "^=")
        || same_text(operator, "&=") || same_text(operator, "|=") || same_text(operator, "<<=")
        || same_text(operator, ">>=")
}

/// The operator of a binary operation, which stands as its only name.
pub open spec fn operator(node: SyntaxNode) -> Seq<char> {
    last_name(node.names@, ""@)
}

/// The signals of a binary operation.
pub open spec fn binary_signals(node: SyntaxNode, depth: usize) -> Seq<Signal> {
    if short_circuit(operator(node)) {
        seq![node_signal(SignalKind::BooleanOperator, node, depth)]
    } else if compound_assignment(operator(node)) {
        seq![
            node_signal(SignalKind::Operation, node, depth),
            node_signal(SignalKind::Mutation, node, depth),
        ]
    } else {
        seq![node_signal(SignalKind::Operation, node, depth)]
    }
}

/// The signals of a statement.
pub open spec fn rust_statement_signals(node: SyntaxNode, depth: usize) -> Seq<Signal> {
    let counted = node_signal(SignalKind::Statement, node, depth);
    if node.named("StmtExpr"@) {
        seq![counted]
    } else if node.named("StmtMacro"@) {
        seq![counted, node_signal(SignalKind::MacroCall, node, depth)]
    } else if let_else(node) {
        seq![counted, node_signal(SignalKind::Branch, node, depth)]
    } else if node.named("StmtLocal"@) {
        seq![counted]
    } else {
        Seq::empty()
    }
}

/// Whether a node makes something changeable: a mutable reference or binding.
pub open spec fn changeable(node: SyntaxNode) -> bool {
    (node.named("ExprReference"@) || node.named("PatIdent"@)) && node.flag
}

/// The signals that a node sends itself.
pub open spec fn rust_own(node: SyntaxNode, depth: usize) -> Seq<Signal> {
    let parts = node.children@;
    if node.named("ExprIf"@) {
        seq![node_signal(SignalKind::Branch, node, depth)]
    } else if node.named("ExprMatch"@) {
        seq![node_signal(SignalKind::Branch, node, depth)] + part_signals(
            SignalKind::MatchArm,
            parts,
            "Arm"@,
            depth,
            parts.len(),
        )
    } else if loop_node(node) {
        seq![
            node_signal(SignalKind::Branch, node, depth),
            node_signal(SignalKind::Loop, node, depth),
        ]
    } else if guarded(node) {
        seq![node_signal(SignalKind::Guard, node, depth)]
    } else if node.named("ExprBinary"@) {
        binary_signals(node, depth)
    } else if node.named("ExprUnary"@) || node.named("ExprIndex"@) || node.named("ExprCast"@) {
        seq![node_signal(SignalKind::Operation, node, depth)]
    } else if node.named("ExprAssign"@) {
        seq![
            node_signal(SignalKind::Operation, node, depth),
            node_signal(SignalKind::Mutation, node, depth),
        ]
    } else if changeable(node) {
        seq![node_signal(SignalKind::Mutation, node, depth)]
    } else if node.named("ExprClosure"@) {
        seq![node_signal(SignalKind::Closure, node, depth)]
    } else if node.named("ExprReturn"@) {
        seq![node_signal(SignalKind::Return, node, depth)]
    } else if node.named("ExprUnsafe"@) {
        seq![node_signal(SignalKind::UnsafeBlock, node, depth)]
    } else if node.named("ExprMacro"@) || node.named("PatMacro"@) {
        seq![node_signal(SignalKind::MacroCall, node, depth)]
    } else if node.named("ExprCall"@) || node.named("ExprMethodCall"@) {
        seq![node_signal(SignalKind::CallSite, node, depth)]
    } else {
        rust_statement_signals(node, depth)
    }
}

/// Whether a walk for signals ends at a node: a closure is a unit of its own,
/// and so are the callables of a nested item.
pub open spec fn rust_closed_off(node: SyntaxNode) -> bool {
    node.named("ExprClosure"@) || node.named("StmtItem"@)
}

/// Whether the attributes of a node are passed over.
pub open spec fn attributes_passed_over(node: SyntaxNode) -> bool {
    node.named("ExprIf"@) || node.named("ExprMatch"@) || loop_node(node) || let_else(node)
}

/// Whether a part of a node stands one branch deeper than the node. An `else
/// if` chain is a sequence of alternatives, rather than the same kind of nested
/// block as an `if` within an `if`.
pub open spec fn rust_within_branch(node: SyntaxNode, child: int) -> bool {
    let place = child - attribute_count(node);
    if node.named("ExprIf"@) {
        place == 1 || (place == 2 && !node.children@[child].named("ExprIf"@))
    } else if node.named("ExprMatch"@) || node.named("ExprWhile"@) {
        place >= 1
    } else if node.named("ExprLoop"@) {
        place >= 0
    } else if node.named("ExprForLoop"@) {
        place >= 2
    } else {
        let_else(node) && place == 2
    }
}

/// The depth of a part of a node.
pub open spec fn rust_part_depth(node: SyntaxNode, child: int, depth: usize) -> usize {
    if rust_within_branch(node, child) {
        deeper(depth)
    } else {
        depth
    }
}

/// The steps to the first `count` parts of a node.
pub open spec fn rust_part_steps(node: SyntaxNode, depth: usize, count: nat) -> Seq<Step>
    decreases count,
{
    if count == 0 {
        Seq::empty()
    } else {
        let earlier = rust_part_steps(node, depth, (count - 1) as nat);
        if attributes_passed_over(node) && node.children@[count - 1].named("Attribute"@) {
            earlier
        } else {
            earlier.push(
                Step {
                    child: (count - 1) as usize,
                    depth: rust_part_depth(node, count - 1, depth),
                    branch: false,
                    quiet: false,
                },
            )
        }
    }
}

/// How a walk for signals goes on from a node.
pub open spec fn rust_steps(node: SyntaxNode, depth: usize) -> Seq<Step> {
    if rust_closed_off(node) {
        Seq::empty()
    } else {
        rust_part_steps(node, depth, node.children@.len())
    }
}

fn push_binary(node: &SyntaxNode, depth: usize, output: &mut Vec<Signal>)
    ensures
        final(output)@ == old(output)@ + binary_signals(*node, depth),
{
    let ghost held = output@;
    let operator = find_last_name(&node.names, "");
    if is_short_circuit(operator.as_str()) {
        push_node(output, SignalKind::BooleanOperator, node, depth);
    } else {
        push_node(output, SignalKind::Operation, node, depth);
        if is_compound_assignment(operator.as_str()) {
            push_node(output, SignalKind::Mutation, node, depth);
        }
    }
    assert(output@ =~= held + binary_signals(*node, depth));
}

fn push_statement(node: &SyntaxNode, depth: usize, output: &mut Vec<Signal>)
    ensures
        final(output)@ == old(output)@ + rust_statement_signals(*node, depth),
{
    let ghost held = output@;
    if node.is("StmtExpr") {
        push_node(output, SignalKind::Statement, node, depth);
    } else if node.is("StmtMacro") {
        push_node(output, SignalKind::Statement, node, depth);
        push_node(output, SignalKind::MacroCall, node, depth);
    } else if node.is("StmtLocal") {
        push_node(output, SignalKind::Statement, node, depth);
        if is_let_else(node) {
            push_node(output, SignalKind::Branch, node, depth);
        }
    }
    assert(output@ =~= held + rust_statement_signals(*node, depth));
}

pub(crate) fn push_rust_signals(node: &SyntaxNode, depth: usize, output: &mut Vec<Signal>)
    ensures
        final(output)@ == old(output)@ + rust_own(*node, depth),
{
    let ghost held = output@;
    if node.is("ExprIf") {
        push_node(output, SignalKind::Branch, node, depth);
    } else if node.is("ExprMatch") {
        push_node(output, SignalKind::Branch, node, depth);
        push_parts(output, SignalKind::MatchArm, &node.children, "Arm", depth);
    } else if is_loop_node(node) {
        push_node(output, SignalKind::Branch, node, depth);
        push_node(output, SignalKind::Loop, node, depth);
    } else if is_guarded(node) {
        push_node(output, SignalKind::Guard, node, depth);
    } else if node.is("ExprBinary") {
        push_binary(node, depth, output);
    } else if node.is("ExprUnary") || node.is("ExprIndex") || node.is("ExprCast") {
        push_node(output, SignalKind::Operation, node, depth);
    } else if node.is("ExprAssign") {
        push_node(output, SignalKind::Operation, node, depth);
        push_node(output, SignalKind::Mutation, node, depth);
    } else if (node.is("ExprReference") || node.is("PatIdent")) && node.flag {
        push_node(output, SignalKind::Mutation, node, depth);
    } else if node.is("ExprClosure") {
        push_node(output, SignalKind::Closure, node, depth);
    } else if node.is("ExprReturn") {
        push_node(output, SignalKind::Return, node, depth);
    } else if node.is("ExprUnsafe") {
        push_node(output, SignalKind::UnsafeBlock, node, depth);
    } else if node.is("ExprMacro") || node.is("PatMacro") {
        push_node(output, SignalKind::MacroCall, node, depth);
    } else if node.is("ExprCall") || node.is("ExprMethodCall") {
        push_node(output, SignalKind::CallSite, node, depth);
    } else {
        push_statement(node, depth, output);
    }
    assert(output@ =~= held + rust_own(*node, depth));
}

fn is_within_branch(node: &SyntaxNode, child: usize) -> (answer: bool)
    requires
        child < node.children@.len(),
    ensures
        answer == rust_within_branch(*node, child as int),
{
    let attributes: usize = count_attributes(node);
    let behind: bool = child >= attributes;
    let place: usize = if behind {
        child - attributes
    } else {
        0
    };
    if node.is("ExprIf") {
        behind && (place == 1 || (place == 2 && !node.children[child].is("ExprIf")))
    } else if node.is("ExprMatch") || node.is("ExprWhile") {
        behind && place >= 1
    } else if node.is("ExprLoop") {
        behind
    } else if node.is("ExprForLoop") {
        behind && place >= 2
    } else {
        behind && place == 2 && is_let_else(node)
    }
}

pub(crate) fn find_part_depth(node: &SyntaxNode, child: usize, depth: usize) -> (found: usize)
    requires
        child < node.children@.len(),
    ensures
        found == rust_part_depth(*node, child as int, depth),
{
    if is_within_branch(node, child) {
        go_deeper(depth)
    } else {
        depth
    }
}

pub(crate) fn list_rust_steps(node: &SyntaxNode, depth: usize) -> (list: Vec<Step>)
    ensures
        list@ == rust_steps(*node, depth),
{
    let mut list: Vec<Step> = Vec::new();
    if node.is("ExprClosure") || node.is("StmtItem") {
        assert(list@ =~= rust_steps(*node, depth));
        return list;
    }
    let passing: bool = node.is("ExprIf") || node.is("ExprMatch") || is_loop_node(node)
        || is_let_else(node);
    let parts = &node.children;
    let mut child: usize = 0;
    while child < parts.len()
        invariant
            child <= parts@.len(),
            parts@ == node.children@,
            passing == attributes_passed_over(*node),
            list@ == rust_part_steps(*node, depth, child as nat),
        decreases parts@.len() - child,
    {
        if !(passing && parts[child].is("Attribute")) {
            let part_depth: usize = find_part_depth(node, child, depth);
            list.push(Step { child, depth: part_depth, branch: false, quiet: false });
        }
        child += 1;
    }
    list
}

/// Whether a predicate of conditional compilation holds in tests alone.
pub open spec fn test_predicate(meta: SyntaxNode) -> bool
    decreases meta, meta.children@.len() + 1,
{
    if meta.named("MetaPath"@) {
        written(meta.names@) == "test"@
    } else if meta.named("MetaList"@) && written(meta.names@) == "all"@ {
        any_test(meta, meta.children@.len())
    } else if meta.named("MetaList"@) && written(meta.names@) == "any"@ {
        meta.children@.len() > 0 && all_test(meta, meta.children@.len())
    } else {
        false
    }
}

/// Whether one of the first `count` predicates holds in tests alone.
pub open spec fn any_test(meta: SyntaxNode, count: nat) -> bool
    decreases meta, count,
{
    if count == 0 || count > meta.children@.len() {
        false
    } else {
        any_test(meta, (count - 1) as nat) || test_predicate(meta.children@[count - 1])
    }
}

/// Whether each of the first `count` predicates holds in tests alone.
pub open spec fn all_test(meta: SyntaxNode, count: nat) -> bool
    decreases meta, count,
{
    if count == 0 || count > meta.children@.len() {
        true
    } else {
        all_test(meta, (count - 1) as nat) && test_predicate(meta.children@[count - 1])
    }
}

/// Whether an attribute marks what is for tests alone: the attribute of a test
/// harness, or conditional compilation that only tests enable.
pub open spec fn test_attribute(attribute: SyntaxNode) -> bool {
    if attribute.children@.len() == 0 {
        false
    } else {
        let meta = attribute.children@[0];
        let name = last_name(meta.names@, ""@);
        ||| name == "test"@ || name == "rstest"@ || name == "test_case"@
        ||| meta.named("MetaList"@) && written(meta.names@) == "cfg"@ && meta.children@.len() == 1
            && test_predicate(meta.children@[0])
    }
}

/// Whether one of the first `count` parts is an attribute for tests.
pub open spec fn test_attribute_upto(parts: Seq<SyntaxNode>, count: nat) -> bool
    decreases count,
{
    if count == 0 {
        false
    } else {
        test_attribute_upto(parts, (count - 1) as nat) || (parts[count - 1].named("Attribute"@)
            && test_attribute(parts[count - 1]))
    }
}

/// Whether a node carries an attribute for tests.
pub open spec fn test_only(node: SyntaxNode) -> bool {
    test_attribute_upto(node.children@, node.children@.len())
}

fn is_test_predicate(meta: &SyntaxNode) -> (answer: bool)
    ensures
        answer == test_predicate(*meta),
    decreases meta,
{
    let parts = &meta.children;
    if meta.is("MetaPath") {
        return is_written(&meta.names, "test");
    }
    if !meta.is("MetaList") {
        return false;
    }
    let all: bool = is_written(&meta.names, "all");
    let any: bool = is_written(&meta.names, "any");
    let mut some: bool = false;
    let mut every: bool = true;
    let mut index: usize = 0;
    while index < parts.len()
        invariant
            index <= parts@.len(),
            parts@ == meta.children@,
            some == any_test(*meta, index as nat),
            every == all_test(*meta, index as nat),
        decreases parts@.len() - index,
    {
        let holds: bool = is_test_predicate(&parts[index]);
        some = some || holds;
        every = every && holds;
        index += 1;
    }
    if all {
        some
    } else {
        any && parts.len() > 0 && every
    }
}

fn is_test_attribute(attribute: &SyntaxNode) -> (answer: bool)
    ensures
        answer == test_attribute(*attribute),
{
    if attribute.children.len() == 0 {
        return false;
    }
    let meta = &attribute.children[0];
    let name = find_last_name(&meta.names, "");
    if same_text(name.as_str(), "test") || same_text(name.as_str(), "rstest") || same_text(
        name.as_str(),
        "test_case",
    ) {
        return true;
    }
    meta.is("MetaList") && is_written(&meta.names, "cfg") && meta.children.len() == 1
        && is_test_predicate(&meta.children[0])
}

/// Whether a node carries an attribute for tests.
pub fn has_test_only_attribute(node: &SyntaxNode) -> (answer: bool)
    ensures
        answer == test_only(*node),
{
    let parts = &node.children;
    let mut found: bool = false;
    let mut index: usize = 0;
    while index < parts.len()
        invariant
            index <= parts@.len(),
            parts@ == node.children@,
            found == test_attribute_upto(parts@, index as nat),
        decreases parts@.len() - index,
    {
        if parts[index].is("Attribute") && is_test_attribute(&parts[index]) {
            found = true;
        }
        index += 1;
    }
    found
}

}
