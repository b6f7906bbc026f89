//! Walking syntax trees with the control-flow depth at hand.
//!
//! A dialect says of each node what signals it sends itself and how the walk
//! goes on from it: to which parts, at what depth, and which of them open a
//! branch of their own.
use vstd::prelude::*;
use crate::javascript_syntax::{
    javascript_own, javascript_steps, list_javascript_steps, push_javascript_signals,
};
use crate::python_syntax::{list_python_steps, push_python_signals, python_own, python_steps};
use crate::rust_syntax::{list_rust_steps, push_rust_signals, rust_own, rust_steps};
use crate::signals::{Signal, SignalKind};
use crate::syntax::SyntaxNode;

verus! {

/// The languages by the shape of their syntax trees.
#[derive(Clone, Copy, Debug, PartialEq, Eq, Structural)]
pub enum Dialect {
    Python,
    JavaScript,
    Rust,
}

/// One step of a walk: to which part, at what depth, and whether a branch opens
/// there.
#[derive(Clone, Copy, Debug, PartialEq, Eq, Structural)]
pub struct Step {
    pub child: usize,
    pub depth: usize,
    pub branch: bool,
    /// Whether what the part itself would send is left out.
    pub quiet: bool,
}

/// A step at a depth that opens no branch.
pub open spec fn at(child: int, depth: usize) -> Step {
    Step { child: child as usize, depth, branch: false, quiet: false }
}

/// Steps to all of `count` parts, in their order, at one depth.
pub open spec fn plain_steps(count: nat, depth: usize) -> Seq<Step> {
    Seq::new(count, |child: int| at(child, depth))
}

/// The signals that a node sends itself.
pub open spec fn own_signals(dialect: Dialect, node: SyntaxNode, depth: usize) -> Seq<Signal> {
    match dialect {
        Dialect::Python => python_own(node, depth),
        Dialect::JavaScript => javascript_own(node, depth),
        Dialect::Rust => rust_own(node, depth),
    }
}

/// How a walk for signals goes on from a node.
pub open spec fn steps(dialect: Dialect, node: SyntaxNode, depth: usize, quiet: bool) -> Seq<
    Step,
> {
    match dialect {
        Dialect::Python => python_steps(node, depth, quiet, false),
        Dialect::JavaScript => javascript_steps(node, depth),
        Dialect::Rust => rust_steps(node, depth),
    }
}

/// The signals of a node and its parts, in the order of the walk.
pub open spec fn signals(dialect: Dialect, node: SyntaxNode, depth: usize) -> Seq<Signal> {
    walk_signals(dialect, node, depth, false)
}

/// The signals of a node and its parts, or of its parts alone.
pub open spec fn walk_signals(
    dialect: Dialect,
    node: SyntaxNode,
    depth: usize,
    quiet: bool,
) -> Seq<Signal>
    decreases node, steps(dialect, node, depth, quiet).len() + 1,
{
    let list = steps(dialect, node, depth, quiet);
    let own = if quiet {
        Seq::empty()
    } else {
        own_signals(dialect, node, depth)
    };
    own + step_signals(dialect, node, list, list.len())
}

/// The signals of an expression that is a body of its own.
pub open spec fn expression_signals(dialect: Dialect, node: SyntaxNode, depth: usize) -> Seq<
    Signal,
> {
    seq![
        Signal { kind: SignalKind::Statement, depth, start: node.start, end: node.end },
    ] + signals(dialect, node, depth)
}

/// The signals of the first `count` steps from a node.
pub open spec fn step_signals(
    dialect: Dialect,
    node: SyntaxNode,
    list: Seq<Step>,
    count: nat,
) -> Seq<Signal>
    decreases node, count,
{
    if count == 0 {
        Seq::empty()
    } else {
        let earlier = step_signals(dialect, node, list, (count - 1) as nat);
        let step = list[count - 1];
        if step.child < node.children@.len() {
            let child = node.children@[step.child as int];
            let opened: Seq<Signal> = if step.branch {
                seq![
                    Signal {
                        kind: SignalKind::Branch,
                        depth: step.depth,
                        start: child.start,
                        end: child.end,
                    },
                ]
            } else {
                Seq::empty()
            };
            earlier + opened + walk_signals(dialect, child, step.depth, step.quiet)
        } else {
            earlier
        }
    }
}

fn push_own(dialect: Dialect, node: &SyntaxNode, depth: usize, output: &mut Vec<Signal>)
    ensures
        final(output)@ == old(output)@ + own_signals(dialect, *node, depth),
{
    match dialect {
        Dialect::Python => push_python_signals(node, depth, output),
        Dialect::JavaScript => push_javascript_signals(node, depth, output),
        Dialect::Rust => push_rust_signals(node, depth, output),
    }
}

fn list_steps(dialect: Dialect, node: &SyntaxNode, depth: usize, quiet: bool) -> (list: Vec<Step>)
    ensures
        list@ == steps(dialect, *node, depth, quiet),
{
    match dialect {
        Dialect::Python => list_python_steps(node, depth, quiet, false),
        Dialect::JavaScript => list_javascript_steps(node, depth),
        Dialect::Rust => list_rust_steps(node, depth),
    }
}

fn collect_part(
    dialect: Dialect,
    node: &SyntaxNode,
    depth: usize,
    quiet: bool,
    output: &mut Vec<Signal>,
)
    ensures
        final(output)@ == old(output)@ + walk_signals(dialect, *node, depth, quiet),
    decreases node,
{
    let ghost start = output@;
    if !quiet {
        push_own(dialect, node, depth, output);
    }
    let list = list_steps(dialect, node, depth, quiet);
    let ghost own = output@;
    let mut index: usize = 0;
    assert(output@ =~= own + step_signals(dialect, *node, list@, 0));
    while index < list.len()
        invariant
            index <= list@.len(),
            output@ == own + step_signals(dialect, *node, list@, index as nat),
        decreases list@.len() - index,
    {
        let step = list[index];
        let ghost held = output@;
        if step.child < node.children.len() {
            let child = &node.children[step.child];
            if step.branch {
                output.push(
                    Signal {
                        kind: SignalKind::Branch,
                        depth: step.depth,
                        start: child.start,
                        end: child.end,
                    },
                );
            }
            collect_part(dialect, child, step.depth, step.quiet, output);
            assert(output@ =~= own + step_signals(dialect, *node, list@, (index + 1) as nat));
        }
        index += 1;
    }
    assert(output@ =~= start + walk_signals(dialect, *node, depth, quiet));
}

/// Collects the signals of a node and its parts.
pub fn collect_signals(
    dialect: Dialect,
    node: &SyntaxNode,
    depth: usize,
    output: &mut Vec<Signal>,
)
    ensures
        final(output)@ == old(output)@ + signals(dialect, *node, depth),
{
    collect_part(dialect, node, depth, false, output);
}

/// Collects the signals of an expression that is a body of its own.
pub fn collect_expression(
    dialect: Dialect,
    node: &SyntaxNode,
    depth: usize,
    output: &mut Vec<Signal>,
)
    ensures
        final(output)@ == old(output)@ + expression_signals(dialect, *node, depth),
{
    let ghost held = output@;
    output.push(Signal { kind: SignalKind::Statement, depth, start: node.start, end: node.end });
    collect_signals(dialect, node, depth, output);
    assert(output@ =~= held + expression_signals(dialect, *node, depth));
}

}
