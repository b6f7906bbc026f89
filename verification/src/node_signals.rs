//! Signals of the nodes of syntax trees.
use vstd::prelude::*;
use crate::signals::{Signal, SignalKind};
use crate::syntax::SyntaxNode;

verus! {

/// A signal of a whole node.
pub open spec fn node_signal(kind: SignalKind, node: SyntaxNode, depth: usize) -> Signal {
    Signal { kind, depth, start: node.start, end: node.end }
}

/// A signal of a whole node, so many times.
pub open spec fn repeated_signal(
    kind: SignalKind,
    node: SyntaxNode,
    depth: usize,
    count: nat,
) -> Seq<Signal> {
    Seq::new(count, |index: int| node_signal(kind, node, depth))
}

/// A signal of each of the first `count` parts that is named so.
pub open spec fn part_signals(
    kind: SignalKind,
    parts: Seq<SyntaxNode>,
    name: Seq<char>,
    depth: usize,
    count: nat,
) -> Seq<Signal>
    decreases count,
{
    if count == 0 {
        Seq::empty()
    } else {
        let earlier = part_signals(kind, parts, name, depth, (count - 1) as nat);
        if parts[count - 1].named(name) {
            earlier.push(node_signal(kind, parts[count - 1], depth))
        } else {
            earlier
        }
    }
}

/// One less than a count, where it is not zero.
pub open spec fn links(count: nat) -> nat {
    if count > 0 {
        (count - 1) as nat
    } else {
        0
    }
}

pub(crate) fn push_node(output: &mut Vec<Signal>, kind: SignalKind, node: &SyntaxNode, depth: usize)
    ensures
        final(output)@ == old(output)@.push(node_signal(kind, *node, depth)),
{
    output.push(Signal { kind, depth, start: node.start, end: node.end });
}

pub(crate) fn push_repeated(
    output: &mut Vec<Signal>,
    kind: SignalKind,
    node: &SyntaxNode,
    depth: usize,
    count: usize,
)
    ensures
        final(output)@ == old(output)@ + repeated_signal(kind, *node, depth, count as nat),
{
    let ghost held = output@;
    let mut done: usize = 0;
    assert(output@ =~= held + repeated_signal(kind, *node, depth, 0));
    while done < count
        invariant
            done <= count,
            output@ =~= held + repeated_signal(kind, *node, depth, done as nat),
        decreases count - done,
    {
        push_node(output, kind, node, depth);
        done += 1;
    }
}

pub(crate) fn push_parts(
    output: &mut Vec<Signal>,
    kind: SignalKind,
    parts: &Vec<SyntaxNode>,
    name: &str,
    depth: usize,
)
    ensures
        final(output)@ == old(output)@ + part_signals(kind, parts@, name@, depth, parts@.len()),
{
    let ghost held = output@;
    let mut index: usize = 0;
    assert(output@ =~= held + part_signals(kind, parts@, name@, depth, 0));
    while index < parts.len()
        invariant
            index <= parts@.len(),
            output@ == held + part_signals(kind, parts@, name@, depth, index as nat),
        decreases parts@.len() - index,
    {
        if parts[index].is(name) {
            push_node(output, kind, &parts[index], depth);
            assert(output@ =~= held + part_signals(
                kind,
                parts@,
                name@,
                depth,
                (index + 1) as nat,
            ));
        }
        index += 1;
    }
}

}
