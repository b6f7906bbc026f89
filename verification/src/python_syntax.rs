//! What the nodes of Python syntax trees mean for the structural score.
use vstd::prelude::*;
use crate::node_signals::{
    links, node_signal, part_signals, push_node, push_parts, push_repeated, repeated_signal,
};
use crate::signals::{deeper, go_deeper, Signal, SignalKind};
use crate::sums::clipped;
use crate::syntax::{count_named, named_count, SyntaxNode};
use crate::text::{begins, starts_with};
use crate::walk::{at, plain_steps, Step};

verus! {

/// Whether a node is a comprehension or a generator expression.
pub open spec fn comprehension(node: SyntaxNode) -> bool {
    node.named("ExprListComp"@) || node.named("ExprSetComp"@) || node.named("ExprDictComp"@)
        || node.named("ExprGenerator"@)
}

pub(crate) fn is_comprehension(node: &SyntaxNode) -> (answer: bool)
    ensures
        answer == comprehension(*node),
{
    node.is("ExprListComp") || node.is("ExprSetComp") || node.is("ExprDictComp") || node.is(
        "ExprGenerator",
    )
}

/// Whether a node assigns to a name.
pub open spec fn assignment(node: SyntaxNode) -> bool {
    node.named("StmtAssign"@) || node.named("StmtAugAssign"@) || node.named("StmtAnnAssign"@)
        || node.named("StmtTypeAlias"@)
}

fn is_assignment(node: &SyntaxNode) -> (answer: bool)
    ensures
        answer == assignment(*node),
{
    node.is("StmtAssign") || node.is("StmtAugAssign") || node.is("StmtAnnAssign") || node.is(
        "StmtTypeAlias",
    )
}

/// Whether an expression is one operation.
pub open spec fn single_operation(node: SyntaxNode) -> bool {
    node.named("ExprBinOp"@) || node.named("ExprUnaryOp"@) || node.named("ExprSubscript"@)
        || node.named("ExprAwait"@) || node.named("ExprYield"@) || node.named("ExprYieldFrom"@)
}

fn is_single_operation(node: &SyntaxNode) -> (answer: bool)
    ensures
        answer == single_operation(*node),
{
    node.is("ExprBinOp") || node.is("ExprUnaryOp") || node.is("ExprSubscript") || node.is(
        "ExprAwait",
    ) || node.is("ExprYield") || node.is("ExprYieldFrom")
}

/// The signals of a node beyond that it is a statement.
pub open spec fn python_particular(node: SyntaxNode, depth: usize) -> Seq<Signal> {
    let parts = node.children@;
    if node.named("StmtIf"@) || node.named("ExprIf"@) || node.named("ExceptHandlerExceptHandler"@)
        || (node.named("ElifElseClause"@) && parts.len() == 2) {
        seq![node_signal(SignalKind::Branch, node, depth)]
    } else if node.named("StmtFor"@) || node.named("StmtWhile"@) || node.named("Comprehension"@) {
        seq![
            node_signal(SignalKind::Branch, node, depth),
            node_signal(SignalKind::Loop, node, depth),
        ]
    } else if node.named("StmtWith"@) {
        part_signals(SignalKind::Operation, parts, "WithItem"@, depth, parts.len())
    } else if node.named("StmtMatch"@) {
        seq![node_signal(SignalKind::Branch, node, depth)] + part_signals(
            SignalKind::MatchArm,
            parts,
            "MatchCase"@,
            depth,
            parts.len(),
        )
    } else if assignment(node) || node.named("ExprNamed"@) {
        seq![
            node_signal(SignalKind::Mutation, node, depth),
            node_signal(SignalKind::Operation, node, depth),
        ]
    } else if node.named("StmtDelete"@) {
        repeated_signal(SignalKind::Mutation, node, depth, parts.len())
    } else if node.named("StmtReturn"@) {
        seq![node_signal(SignalKind::Return, node, depth)]
    } else if node.named("ExprBoolOp"@) {
        repeated_signal(SignalKind::BooleanOperator, node, depth, links(parts.len()))
    } else if node.named("ExprCompare"@) {
        repeated_signal(SignalKind::Operation, node, depth, links(parts.len()))
    } else if single_operation(node) {
        seq![node_signal(SignalKind::Operation, node, depth)]
    } else if node.named("ExprCall"@) {
        seq![node_signal(SignalKind::CallSite, node, depth)]
    } else if node.named("ExprLambda"@) {
        seq![node_signal(SignalKind::Closure, node, depth)]
    } else {
        Seq::empty()
    }
}

/// The signals that a node sends itself.
pub open spec fn python_own(node: SyntaxNode, depth: usize) -> Seq<Signal> {
    (if begins(node.kind@, "Stmt"@) {
        seq![node_signal(SignalKind::Statement, node, depth)]
    } else {
        Seq::empty()
    }) + python_particular(node, depth)
}

/// Steps to all parts but the bodies among the first `count`.
pub open spec fn header_steps(parts: Seq<SyntaxNode>, depth: usize, count: nat) -> Seq<Step>
    decreases count,
{
    if count == 0 {
        Seq::empty()
    } else {
        let earlier = header_steps(parts, depth, (count - 1) as nat);
        if parts[count - 1].named("Body"@) {
            earlier
        } else {
            earlier.push(at(count - 1, depth))
        }
    }
}

/// Steps to all parts, at one depth into bodies and at another else.
pub open spec fn body_steps(parts: Seq<SyntaxNode>, inside: usize, outside: usize) -> Seq<Step> {
    Seq::new(
        parts.len(),
        |child: int|
            at(
                child,
                if parts[child].named("Body"@) {
                    inside
                } else {
                    outside
                },
            ),
    )
}

/// Steps to the second part and the first, and then to the others at a depth of
/// their own, each of them a branch or none.
pub open spec fn swapped_steps(count: nat, depth: usize, rest_depth: usize, branch: bool) -> Seq<
    Step,
> {
    seq![at(1, depth), at(0, depth)] + Seq::new(
        (count - 2) as nat,
        |index: int| Step {
            child: (index + 2) as usize,
            depth: rest_depth,
            branch,
            quiet: false,
        },
    )
}

/// Steps to those of the first `count` parts that are named so, or to the others.
pub open spec fn picked_steps(
    parts: Seq<SyntaxNode>,
    kind: Seq<char>,
    wanted: bool,
    quiet: bool,
    depth: usize,
    count: nat,
) -> Seq<Step>
    decreases count,
{
    if count == 0 {
        Seq::empty()
    } else {
        let earlier = picked_steps(parts, kind, wanted, quiet, depth, (count - 1) as nat);
        if parts[count - 1].named(kind) == wanted {
            earlier.push(Step { child: (count - 1) as usize, depth, branch: false, quiet })
        } else {
            earlier
        }
    }
}

/// Steps to what is evaluated of parameters or arguments: the defaults before
/// the annotations, and what is passed by place before what is passed by name.
/// A parameter is walked quietly for its default, and again for the rest of it.
pub open spec fn evaluated_steps(node: SyntaxNode, depth: usize, quiet: bool) -> Seq<Step> {
    let parts = node.children@;
    if node.named("Parameters"@) {
        picked_steps(parts, "ParameterWithDefault"@, true, true, depth, parts.len())
            + plain_steps(parts.len(), depth)
    } else if node.named("Arguments"@) {
        picked_steps(parts, "Keyword"@, false, false, depth, parts.len()) + picked_steps(
            parts,
            "Keyword"@,
            true,
            false,
            depth,
            parts.len(),
        )
    } else if quiet {
        if parts.len() > 1 {
            seq![at(1, depth)]
        } else {
            Seq::empty()
        }
    } else if parts.len() > 0 {
        seq![at(0, depth)]
    } else {
        Seq::empty()
    }
}

/// Whether a node is parameters, one with its default, or arguments.
pub open spec fn evaluated(node: SyntaxNode) -> bool {
    ||| node.named("Parameters"@)
    ||| node.named("Arguments"@)
    ||| node.named("ParameterWithDefault"@)
}

/// How many parts of a comprehension stand before its generators.
pub open spec fn element_count(parts: Seq<SyntaxNode>) -> nat {
    (parts.len() - named_count(parts, "Comprehension"@, parts.len())) as nat
}

/// Steps to the generators of a comprehension, each deeper than the one before
/// it, and to its elements inside them all.
pub open spec fn comprehension_steps(parts: Seq<SyntaxNode>, depth: usize) -> Seq<Step> {
    let elements = element_count(parts);
    let generators = (parts.len() - elements) as nat;
    Seq::new(
        generators,
        |index: int| at(elements + index, clipped((depth + index) as nat)),
    ) + plain_steps(elements, clipped((depth + generators) as nat))
}

/// How a walk goes on from a node. Callables and classes are walked for their
/// headers alone. In a walk for callables the type of an exception handler
/// counts as inside the handler.
pub open spec fn python_steps(
    node: SyntaxNode,
    depth: usize,
    quiet: bool,
    for_units: bool,
) -> Seq<Step> {
    let parts = node.children@;
    let inside = deeper(depth);
    let plain = plain_steps(parts.len(), depth);
    if node.named("StmtFunctionDef"@) || node.named("StmtClassDef"@) {
        header_steps(parts, depth, parts.len())
    } else if node.named("ExprLambda"@) {
        if parts.len() > 0 && parts[0].named("Parameters"@) {
            seq![at(0, depth)]
        } else {
            Seq::empty()
        }
    } else if node.named("StmtIf"@) || node.named("ElifElseClause"@) || node.named("StmtWhile"@)
        || node.named("StmtTry"@) {
        body_steps(parts, inside, depth)
    } else if node.named("ExceptHandlerExceptHandler"@) {
        body_steps(
            parts,
            inside,
            if for_units {
                inside
            } else {
                depth
            },
        )
    } else if node.named("StmtFor"@) {
        if parts.len() >= 2 {
            swapped_steps(parts.len(), depth, inside, false)
        } else {
            plain
        }
    } else if node.named("Comprehension"@) {
        if parts.len() >= 2 {
            swapped_steps(parts.len(), depth, inside, true)
        } else {
            plain
        }
    } else if node.named("StmtAugAssign"@) || node.named("StmtAnnAssign"@) || node.named(
        "ExprNamed"@,
    ) {
        if parts.len() >= 2 {
            swapped_steps(parts.len(), depth, depth, false)
        } else {
            plain
        }
    } else if node.named("StmtMatch"@) {
        Seq::new(
            parts.len(),
            |child: int|
                at(
                    child,
                    if child == 0 {
                        depth
                    } else {
                        inside
                    },
                ),
        )
    } else if node.named("MatchCase"@) {
        Seq::new(
            parts.len(),
            |child: int|
                Step {
                    child: child as usize,
                    depth,
                    branch: parts.len() == 3 && child == 1,
                    quiet: false,
                },
        )
    } else if node.named("StmtAssign"@) {
        if parts.len() > 0 {
            seq![at(parts.len() - 1, depth)] + plain_steps((parts.len() - 1) as nat, depth)
        } else {
            plain
        }
    } else if node.named("ExprIf"@) {
        if parts.len() == 3 {
            seq![at(1, depth), at(0, inside), at(2, inside)]
        } else {
            plain
        }
    } else if comprehension(node) {
        comprehension_steps(parts, depth)
    } else if evaluated(node) {
        evaluated_steps(node, depth, quiet)
    } else {
        plain
    }
}

pub(crate) fn push_python_signals(node: &SyntaxNode, depth: usize, output: &mut Vec<Signal>)
    ensures
        final(output)@ == old(output)@ + python_own(*node, depth),
{
    let ghost start = output@;
    if starts_with(node.kind.as_str(), "Stmt") {
        push_node(output, SignalKind::Statement, node, depth);
    }
    let ghost held = output@;
    let parts = &node.children;
    let linked: usize = if parts.len() > 0 {
        parts.len() - 1
    } else {
        0
    };
    if node.is("StmtIf") || node.is("ExprIf") || node.is("ExceptHandlerExceptHandler") || (node.is(
        "ElifElseClause",
    ) && parts.len() == 2) {
        push_node(output, SignalKind::Branch, node, depth);
    } else if node.is("StmtFor") || node.is("StmtWhile") || node.is("Comprehension") {
        push_node(output, SignalKind::Branch, node, depth);
        push_node(output, SignalKind::Loop, node, depth);
    } else if node.is("StmtWith") {
        push_parts(output, SignalKind::Operation, parts, "WithItem", depth);
    } else if node.is("StmtMatch") {
        push_node(output, SignalKind::Branch, node, depth);
        push_parts(output, SignalKind::MatchArm, parts, "MatchCase", depth);
    } else if is_assignment(node) || node.is("ExprNamed") {
        push_node(output, SignalKind::Mutation, node, depth);
        push_node(output, SignalKind::Operation, node, depth);
    } else if node.is("StmtDelete") {
        push_repeated(output, SignalKind::Mutation, node, depth, parts.len());
    } else if node.is("StmtReturn") {
        push_node(output, SignalKind::Return, node, depth);
    } else if node.is("ExprBoolOp") {
        push_repeated(output, SignalKind::BooleanOperator, node, depth, linked);
    } else if node.is("ExprCompare") {
        push_repeated(output, SignalKind::Operation, node, depth, linked);
    } else if is_single_operation(node) {
        push_node(output, SignalKind::Operation, node, depth);
    } else if node.is("ExprCall") {
        push_node(output, SignalKind::CallSite, node, depth);
    } else if node.is("ExprLambda") {
        push_node(output, SignalKind::Closure, node, depth);
    }
    assert(output@ =~= held + python_particular(*node, depth));
    assert(output@ =~= start + python_own(*node, depth));
}

fn step_to(child: usize, depth: usize) -> (step: Step)
    ensures
        step == at(child as int, depth),
{
    Step { child, depth, branch: false, quiet: false }
}

pub(crate) fn push_plain(list: &mut Vec<Step>, count: usize, depth: usize)
    ensures
        final(list)@ == old(list)@ + plain_steps(count as nat, depth),
{
    let ghost held = list@;
    let mut child: usize = 0;
    assert(list@ =~= held + plain_steps(0, depth));
    while child < count
        invariant
            child <= count,
            list@ =~= held + plain_steps(child as nat, depth),
        decreases count - child,
    {
        list.push(step_to(child, depth));
        child += 1;
    }
}

fn list_header(parts: &Vec<SyntaxNode>, depth: usize) -> (list: Vec<Step>)
    ensures
        list@ == header_steps(parts@, depth, parts@.len()),
{
    let mut list: Vec<Step> = Vec::new();
    let mut child: usize = 0;
    while child < parts.len()
        invariant
            child <= parts@.len(),
            list@ == header_steps(parts@, depth, child as nat),
        decreases parts@.len() - child,
    {
        if !parts[child].is("Body") {
            list.push(step_to(child, depth));
        }
        child += 1;
    }
    list
}

fn list_bodies(parts: &Vec<SyntaxNode>, inside: usize, outside: usize) -> (list: Vec<Step>)
    ensures
        list@ == body_steps(parts@, inside, outside),
{
    let mut list: Vec<Step> = Vec::new();
    while list.len() < parts.len()
        invariant
            list@.len() <= parts@.len(),
            list@ =~= body_steps(parts@, inside, outside).take(list@.len() as int),
        decreases parts@.len() - list@.len(),
    {
        let child: usize = list.len();
        let depth: usize = if parts[child].is("Body") {
            inside
        } else {
            outside
        };
        list.push(step_to(child, depth));
    }
    assert(list@ =~= body_steps(parts@, inside, outside));
    list
}

fn list_swapped(count: usize, depth: usize, rest_depth: usize, branch: bool) -> (list: Vec<Step>)
    requires
        count >= 2,
    ensures
        list@ == swapped_steps(count as nat, depth, rest_depth, branch),
{
    let mut list: Vec<Step> = Vec::new();
    list.push(step_to(1, depth));
    list.push(step_to(0, depth));
    while list.len() < count
        invariant
            2 <= list@.len() <= count,
            list@ =~= swapped_steps(count as nat, depth, rest_depth, branch).take(
                list@.len() as int,
            ),
        decreases count - list@.len(),
    {
        let child: usize = list.len();
        list.push(Step { child, depth: rest_depth, branch, quiet: false });
    }
    assert(list@ =~= swapped_steps(count as nat, depth, rest_depth, branch));
    list
}

fn push_picked(
    list: &mut Vec<Step>,
    parts: &Vec<SyntaxNode>,
    kind: &str,
    wanted: bool,
    quiet: bool,
    depth: usize,
)
    ensures
        final(list)@ == old(list)@ + picked_steps(
            parts@,
            kind@,
            wanted,
            quiet,
            depth,
            parts@.len(),
        ),
{
    let ghost held = list@;
    let mut child: usize = 0;
    assert(list@ =~= held + picked_steps(parts@, kind@, wanted, quiet, depth, 0));
    while child < parts.len()
        invariant
            child <= parts@.len(),
            list@ == held + picked_steps(parts@, kind@, wanted, quiet, depth, child as nat),
        decreases parts@.len() - child,
    {
        if parts[child].is(kind) == wanted {
            list.push(Step { child, depth, branch: false, quiet });
        }
        child += 1;
        assert(list@ =~= held + picked_steps(parts@, kind@, wanted, quiet, depth, child as nat));
    }
}

fn list_evaluated(node: &SyntaxNode, depth: usize, quiet: bool) -> (list: Vec<Step>)
    requires
        evaluated(*node),
    ensures
        list@ == evaluated_steps(*node, depth, quiet),
{
    let parts = &node.children;
    let mut list: Vec<Step> = Vec::new();
    if node.is("Parameters") {
        push_picked(&mut list, parts, "ParameterWithDefault", true, true, depth);
        push_plain(&mut list, parts.len(), depth);
    } else if node.is("Arguments") {
        push_picked(&mut list, parts, "Keyword", false, false, depth);
        push_picked(&mut list, parts, "Keyword", true, false, depth);
    } else if quiet && parts.len() > 1 {
        list.push(step_to(1, depth));
    } else if !quiet && parts.len() > 0 {
        list.push(step_to(0, depth));
    }
    assert(list@ =~= evaluated_steps(*node, depth, quiet));
    list
}

proof fn lemma_named_count(parts: Seq<SyntaxNode>, kind: Seq<char>, count: nat)
    ensures
        named_count(parts, kind, count) <= count,
    decreases count,
{
    if count > 0 {
        lemma_named_count(parts, kind, (count - 1) as nat);
    }
}

fn list_comprehension(parts: &Vec<SyntaxNode>, depth: usize) -> (list: Vec<Step>)
    ensures
        list@ == comprehension_steps(parts@, depth),
{
    proof {
        lemma_named_count(parts@, "Comprehension"@, parts@.len());
    }
    let generators: usize = count_named(parts, "Comprehension");
    let elements: usize = parts.len() - generators;
    let mut list: Vec<Step> = Vec::new();
    let ghost whole = comprehension_steps(parts@, depth);
    while list.len() < generators
        invariant
            list@.len() <= generators,
            elements + generators == parts@.len(),
            parts@.len() <= usize::MAX,
            elements == element_count(parts@),
            whole == comprehension_steps(parts@, depth),
            list@ =~= whole.take(list@.len() as int),
        decreases generators - list@.len(),
    {
        let index: usize = list.len();
        list.push(step_to(elements + index, depth.saturating_add(index)));
    }
    push_plain(&mut list, elements, depth.saturating_add(generators));
    assert(list@ =~= whole);
    list
}

pub(crate) fn list_python_steps(
    node: &SyntaxNode,
    depth: usize,
    quiet: bool,
    for_units: bool,
) -> (list: Vec<Step>)
    ensures
        list@ == python_steps(*node, depth, quiet, for_units),
{
    let parts = &node.children;
    let inside: usize = go_deeper(depth);
    let mut list: Vec<Step> = Vec::new();
    if node.is("StmtFunctionDef") || node.is("StmtClassDef") {
        return list_header(parts, depth);
    } else if node.is("ExprLambda") {
        if parts.len() > 0 && parts[0].is("Parameters") {
            list.push(step_to(0, depth));
        }
    } else if node.is("StmtIf") || node.is("ElifElseClause") || node.is("StmtWhile") || node.is(
        "StmtTry",
    ) {
        return list_bodies(parts, inside, depth);
    } else if node.is("ExceptHandlerExceptHandler") {
        let outside: usize = if for_units {
            inside
        } else {
            depth
        };
        return list_bodies(parts, inside, outside);
    } else if node.is("StmtFor") && parts.len() >= 2 {
        return list_swapped(parts.len(), depth, inside, false);
    } else if node.is("Comprehension") && !node.is("StmtFor") && parts.len() >= 2 {
        return list_swapped(parts.len(), depth, inside, true);
    } else if !node.is("StmtFor") && !node.is("Comprehension") && (node.is("StmtAugAssign")
        || node.is("StmtAnnAssign") || node.is("ExprNamed")) && parts.len() >= 2 {
        return list_swapped(parts.len(), depth, depth, false);
    } else {
        return list_other_steps(node, depth, quiet, for_units);
    }
    assert(list@ =~= python_steps(*node, depth, quiet, for_units));
    list
}

fn list_other_steps(node: &SyntaxNode, depth: usize, quiet: bool, for_units: bool) -> (list: Vec<
    Step,
>)
    requires
        !(node.named("StmtFunctionDef"@) || node.named("StmtClassDef"@)),
        !node.named("ExprLambda"@),
        !(node.named("StmtIf"@) || node.named("ElifElseClause"@) || node.named("StmtWhile"@)
            || node.named("StmtTry"@)),
        !node.named("ExceptHandlerExceptHandler"@),
        node.children@.len() >= 2 ==> !(node.named("StmtFor"@) || node.named("Comprehension"@)
            || node.named("StmtAugAssign"@) || node.named("StmtAnnAssign"@) || node.named(
            "ExprNamed"@,
        )),
    ensures
        list@ == python_steps(*node, depth, quiet, for_units),
{
    let parts = &node.children;
    let inside: usize = go_deeper(depth);
    let mut list: Vec<Step> = Vec::new();
    let early: bool = node.is("StmtFor") || node.is("Comprehension") || node.is("StmtAugAssign")
        || node.is("StmtAnnAssign") || node.is("ExprNamed");
    if early {
        push_plain(&mut list, parts.len(), depth);
    } else if node.is("StmtMatch") {
        while list.len() < parts.len()
            invariant
                list@.len() <= parts@.len(),
                forall|child: int|
                    0 <= child < list@.len() ==> #[trigger] list@[child] == at(
                        child,
                        if child == 0 {
                            depth
                        } else {
                            inside
                        },
                    ),
            decreases parts@.len() - list@.len(),
        {
            let child: usize = list.len();
            list.push(
                step_to(
                    child,
                    if child == 0 {
                        depth
                    } else {
                        inside
                    },
                ),
            );
        }
    } else if node.is("MatchCase") {
        while list.len() < parts.len()
            invariant
                list@.len() <= parts@.len(),
                forall|child: int|
                    0 <= child < list@.len() ==> #[trigger] list@[child] == (Step {
                        child: child as usize,
                        depth,
                        branch: parts@.len() == 3 && child == 1,
                        quiet: false,
                    }),
            decreases parts@.len() - list@.len(),
        {
            let child: usize = list.len();
            list.push(
                Step { child, depth, branch: parts.len() == 3 && child == 1, quiet: false },
            );
        }
    } else if node.is("StmtAssign") && parts.len() > 0 {
        list.push(step_to(parts.len() - 1, depth));
        push_plain(&mut list, parts.len() - 1, depth);
    } else if node.is("ExprIf") && !node.is("StmtAssign") && parts.len() == 3 {
        list.push(step_to(1, depth));
        list.push(step_to(0, inside));
        list.push(step_to(2, inside));
    } else if is_comprehension(node) && !node.is("StmtAssign") && !node.is("ExprIf") {
        return list_comprehension(parts, depth);
    } else if !node.is("StmtAssign") && !node.is("ExprIf") && (node.is("Parameters") || node.is(
        "Arguments",
    ) || node.is("ParameterWithDefault")) {
        return list_evaluated(node, depth, quiet);
    } else {
        push_plain(&mut list, parts.len(), depth);
    }
    assert(list@ =~= python_steps(*node, depth, quiet, for_units));
    list
}

}
