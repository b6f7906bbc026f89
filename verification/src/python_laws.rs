//! What each construct of Python source adds to the metrics of a callable.
//!
//! Every law relates what is measured of a construct to what is measured of its
//! parts, each by itself.
use vstd::prelude::*;
use crate::kinds::lemma_python_kinds;
use crate::model::Metrics;
use crate::node_signals::{node_signal, part_signals, repeated_signal};
use crate::python_syntax::{
    comprehension, header_steps, picked_steps, python_own, python_particular, python_steps,
};
use crate::signals::{Signal, SignalKind};
use crate::syntax::{named_count, SyntaxNode};
use crate::tallies::{
    gathered, lemma_gathered_grows, lemma_gathered_turned, lemma_made, lemma_measured,
    lemma_no_openings, lemma_part_under, lemma_tallied_concat, lemma_tallied_one, lemma_tallied_two,
    lemma_walk_tally, made_of, measured, openings, parts_measured, single, steps_tally, tallied,
    tally_of, Tally,
};
use crate::rust_laws::level;
use crate::text::begins;
use crate::walk::{at, plain_steps, signals, steps, Dialect, Step};

verus! {

proof fn lemma_repeated(kind: SignalKind, node: SyntaxNode, count: nat)
    ensures
        kind == SignalKind::Operation ==> tallied(repeated_signal(kind, node, 0, count)) == (Tally {
            operations: count,
            ..Tally::none()
        }),
        kind == SignalKind::BooleanOperator ==> tallied(repeated_signal(kind, node, 0, count)) == (
        Tally { operators: count, ..Tally::none() }),
        kind == SignalKind::Mutation ==> tallied(repeated_signal(kind, node, 0, count)) == (Tally {
            mutations: count,
            ..Tally::none()
        }),
    decreases count,
{
    let list = repeated_signal(kind, node, 0, count);
    if count > 0 {
        let fewer = repeated_signal(kind, node, 0, (count - 1) as nat);
        lemma_repeated(kind, node, (count - 1) as nat);
        let one = node_signal(kind, node, 0);
        assert(list =~= fewer + seq![one]);
        lemma_tallied_concat(fewer, seq![one]);
        lemma_tallied_one(one);
    }
}

proof fn lemma_parts(kind: SignalKind, parts: Seq<SyntaxNode>, name: Seq<char>, count: nat)
    requires
        count <= parts.len(),
    ensures
        kind == SignalKind::Operation ==> tallied(part_signals(kind, parts, name, 0, count)) == (
        Tally { operations: named_count(parts, name, count), ..Tally::none() }),
        kind == SignalKind::MatchArm ==> tallied(part_signals(kind, parts, name, 0, count)) == (
        Tally { arms: named_count(parts, name, count), ..Tally::none() }),
    decreases count,
{
    if count > 0 {
        lemma_parts(kind, parts, name, (count - 1) as nat);
        if parts[count - 1].named(name) {
            let earlier = part_signals(kind, parts, name, 0, (count - 1) as nat);
            let own = node_signal(kind, parts[count - 1], 0);
            lemma_tallied_concat(earlier, seq![own]);
            lemma_tallied_one(own);
            assert(earlier.push(own) =~= earlier + seq![own]);
        }
    }
}

proof fn lemma_named_from(parts: Seq<SyntaxNode>, kind: Seq<char>, start: nat, count: nat)
    requires
        start <= parts.len(),
        count <= parts.len(),
        forall|index: int| 0 <= index < start ==> !(#[trigger] parts[index]).named(kind),
        forall|index: int|
            start <= index < parts.len() ==> (#[trigger] parts[index]).named(kind),
    ensures
        named_count(parts, kind, count) == if count <= start {
            0
        } else {
            (count - start) as nat
        },
    decreases count,
{
    if count > 0 {
        lemma_named_from(parts, kind, start, (count - 1) as nat);
        assert(parts[count - 1].named(kind) == (count - 1 >= start));
    }
}

proof fn lemma_named_upto(parts: Seq<SyntaxNode>, kind: Seq<char>, end: nat, count: nat)
    requires
        end <= parts.len(),
        count <= parts.len(),
        forall|index: int| 0 <= index < end ==> (#[trigger] parts[index]).named(kind),
        forall|index: int|
            end <= index < parts.len() ==> !(#[trigger] parts[index]).named(kind),
    ensures
        named_count(parts, kind, count) == if count <= end {
            count
        } else {
            end
        },
    decreases count,
{
    if count > 0 {
        lemma_named_upto(parts, kind, end, (count - 1) as nat);
        assert(parts[count - 1].named(kind) == (count - 1 < end));
    }
}

/// What a node adds as the statement that it may be.
spec fn as_statement(node: SyntaxNode) -> Tally {
    Tally {
        statements: if begins(node.kind@, "Stmt"@) {
            1
        } else {
            0
        },
        ..Tally::none()
    }
}

proof fn lemma_own(node: SyntaxNode)
    ensures
        tallied(python_own(node, 0)) == as_statement(node).plus(
            tallied(python_particular(node, 0)),
        ),
{
    let first = if begins(node.kind@, "Stmt"@) {
        seq![node_signal(SignalKind::Statement, node, 0)]
    } else {
        Seq::<Signal>::empty()
    };
    lemma_tallied_one(node_signal(SignalKind::Statement, node, 0));
    lemma_tallied_concat(first, python_particular(node, 0));
}

proof fn lemma_ones(node: SyntaxNode)
    ensures
        tallied(seq![node_signal(SignalKind::Branch, node, 0)]) == single(
            node_signal(SignalKind::Branch, node, 0),
        ),
        tallied(seq![node_signal(SignalKind::Return, node, 0)]) == single(
            node_signal(SignalKind::Return, node, 0),
        ),
        tallied(seq![node_signal(SignalKind::Operation, node, 0)]) == single(
            node_signal(SignalKind::Operation, node, 0),
        ),
        tallied(seq![node_signal(SignalKind::CallSite, node, 0)]) == single(
            node_signal(SignalKind::CallSite, node, 0),
        ),
        tallied(seq![node_signal(SignalKind::Closure, node, 0)]) == single(
            node_signal(SignalKind::Closure, node, 0),
        ),
        tallied(
            seq![
                node_signal(SignalKind::Branch, node, 0),
                node_signal(SignalKind::Loop, node, 0),
            ],
        ) == single(node_signal(SignalKind::Branch, node, 0)).plus(
            single(node_signal(SignalKind::Loop, node, 0)),
        ),
        tallied(
            seq![
                node_signal(SignalKind::Mutation, node, 0),
                node_signal(SignalKind::Operation, node, 0),
            ],
        ) == single(node_signal(SignalKind::Mutation, node, 0)).plus(
            single(node_signal(SignalKind::Operation, node, 0)),
        ),
{
    lemma_tallied_one(node_signal(SignalKind::Branch, node, 0));
    lemma_tallied_one(node_signal(SignalKind::Return, node, 0));
    lemma_tallied_one(node_signal(SignalKind::Operation, node, 0));
    lemma_tallied_one(node_signal(SignalKind::CallSite, node, 0));
    lemma_tallied_one(node_signal(SignalKind::Closure, node, 0));
    lemma_tallied_two(
        node_signal(SignalKind::Branch, node, 0),
        node_signal(SignalKind::Loop, node, 0),
    );
    lemma_tallied_two(
        node_signal(SignalKind::Mutation, node, 0),
        node_signal(SignalKind::Operation, node, 0),
    );
}

/// Whether the steps from a node go to all parts in their order, each at so many
/// levels.
spec fn ordered(node: SyntaxNode, levels: spec_fn(int) -> nat) -> bool {
    let list = python_steps(node, 0, false, false);
    &&& list.len() == node.children@.len()
    &&& forall|index: int|
        0 <= index < list.len() ==> (#[trigger] list[index]) == at(index, levels(index) as usize)
            && levels(index) <= usize::MAX
}

proof fn lemma_ordered(
    node: SyntaxNode,
    whole: Metrics,
    parts: Seq<Metrics>,
    levels: spec_fn(int) -> nat,
)
    requires
        measured(Dialect::Python, node, whole),
        parts_measured(Dialect::Python, node, 0, parts),
        ordered(node, levels),
    ensures
        made_of(whole, tallied(python_own(node, 0)), parts, levels),
{
    let list = steps(Dialect::Python, node, 0, false);
    let own = tallied(python_own(node, 0));
    assert(node.children.len() == node.children@.len());
    assert forall|index: int| 0 <= index < list.len() implies {
        let step = #[trigger] list[index];
        &&& step.child < node.children@.len()
        &&& step.depth == levels(index)
        &&& !step.branch
        &&& !step.quiet
        &&& measured(Dialect::Python, node.children@[step.child as int], parts[index])
    } by {
        assert(list[index] == at(index, levels(index) as usize));
        assert(measured(Dialect::Python, node.children@[0 + index], parts[index]));
    }
    lemma_no_openings(list, list.len());
    assert(own == own.plus(Tally::none()));
    lemma_made(Dialect::Python, node, whole, own, parts, levels);
}

/// A condition, a loop with a condition, a part of a condition that has one of its
/// own, and a handler of exceptions are one decision each, a loop also a loop.
/// Their bodies stand one level further in, and so do those of `else` and `try`,
/// which are no decisions.
pub proof fn conditions_are_one_decision_each(
    node: SyntaxNode,
    whole: Metrics,
    parts: Seq<Metrics>,
)
    requires
        node.named("StmtIf"@) || node.named("StmtWhile"@) || node.named("StmtTry"@) || node.named(
            "ElifElseClause"@,
        ) || node.named("ExceptHandlerExceptHandler"@),
        measured(Dialect::Python, node, whole),
        parts_measured(Dialect::Python, node, 0, parts),
    ensures
        made_of(
            whole,
            (if node.named("StmtIf"@) {
                Tally { statements: 1, branches: 1, depth: 1, ..Tally::none() }
            } else if node.named("StmtWhile"@) {
                Tally { statements: 1, branches: 1, loops: 1, depth: 1, ..Tally::none() }
            } else if node.named("StmtTry"@) {
                Tally { statements: 1, ..Tally::none() }
            } else if node.named("ExceptHandlerExceptHandler"@) || node.children@.len() == 2 {
                Tally { branches: 1, depth: 1, ..Tally::none() }
            } else {
                Tally::none()
            }),
            parts,
            |index: int|
                if node.children@[index].named("Body"@) {
                    1
                } else {
                    0
                },
        ),
{
    lemma_python_kinds();
    lemma_own(node);
    lemma_ones(node);
    let levels = |index: int|
        if node.children@[index].named("Body"@) {
            1nat
        } else {
            0nat
        };
    let list = python_steps(node, 0, false, false);
    assert(ordered(node, levels));
    lemma_ordered(node, whole, parts, levels);
}

proof fn lemma_swapped(
    node: SyntaxNode,
    whole: Metrics,
    parts: Seq<Metrics>,
    own: Tally,
    levels: spec_fn(int) -> nat,
    deep: bool,
    branch: bool,
)
    requires
        node.children@.len() >= 2,
        measured(Dialect::Python, node, whole),
        parts_measured(Dialect::Python, node, 0, parts),
        python_steps(node, 0, false, false) == crate::python_syntax::swapped_steps(
            node.children@.len(),
            0,
            if deep {
                1
            } else {
                0
            },
            branch,
        ),
        branch ==> deep,
        forall|index: int|
            0 <= index < parts.len() ==> #[trigger] levels(index) == if deep && index >= 2 {
                1nat
            } else {
                0nat
            },
        own == tallied(python_own(node, 0)).plus(
            if branch && parts.len() > 2 {
                Tally {
                    branches: (parts.len() - 2) as nat,
                    nesting: (parts.len() - 2) as nat,
                    depth: 2,
                    ..Tally::none()
                }
            } else {
                Tally::none()
            },
        ),
    ensures
        made_of(whole, own, parts, levels),
{
    let list = steps(Dialect::Python, node, 0, false);
    let moved = parts.update(0, parts[1]).update(1, parts[0]);
    assert(node.children.len() == node.children@.len());
    assert(measured(Dialect::Python, node.children@[0], parts[0]));
    assert(measured(Dialect::Python, node.children@[1], parts[1]));
    assert forall|index: int| 0 <= index < list.len() implies {
        let step = #[trigger] list[index];
        &&& step.child < node.children@.len()
        &&& step.depth == levels(index)
        &&& !step.quiet
        &&& step.branch == (branch && index >= 2)
        &&& measured(Dialect::Python, node.children@[step.child as int], moved[index])
    } by {
        assert(levels(index) == levels(index));
        if index >= 2 {
            assert(measured(Dialect::Python, node.children@[0 + index], parts[index]));
        }
    }
    lemma_openings_from(list, branch, list.len());
    lemma_made(Dialect::Python, node, whole, own, moved, levels);
    assert(levels(0) == 0 && levels(1) == 0);
    lemma_gathered_swapped(parts, moved, levels, parts.len());
}

proof fn lemma_openings_from(list: Seq<Step>, branch: bool, count: nat)
    requires
        count <= list.len(),
        forall|index: int|
            0 <= index < list.len() ==> (#[trigger] list[index]).branch == (branch && index >= 2),
        branch ==> forall|index: int|
            2 <= index < list.len() ==> (#[trigger] list[index]).depth == 1,
    ensures
        openings(list, count) == if branch && count > 2 {
            Tally {
                branches: (count - 2) as nat,
                nesting: (count - 2) as nat,
                depth: 2,
                ..Tally::none()
            }
        } else {
            Tally::none()
        },
    decreases count,
{
    if count > 0 {
        lemma_openings_from(list, branch, (count - 1) as nat);
        assert(list[count - 1].branch == (branch && count - 1 >= 2));
    }
}

proof fn lemma_gathered_swapped(
    parts: Seq<Metrics>,
    moved: Seq<Metrics>,
    levels: spec_fn(int) -> nat,
    count: nat,
)
    requires
        2 <= count <= parts.len(),
        moved == parts.update(0, parts[1]).update(1, parts[0]),
        levels(0) == 0,
        levels(1) == 0,
    ensures
        gathered(moved, levels, count) == gathered(parts, levels, count),
    decreases count,
{
    if count > 2 {
        lemma_gathered_swapped(parts, moved, levels, (count - 1) as nat);
    } else {
        reveal_with_fuel(gathered, 3);
    }
}

/// A `for` loop is one decision and one loop. What it goes over stays at its
/// level; its bodies stand one level further in.
pub proof fn a_for_loop_is_one_decision(node: SyntaxNode, whole: Metrics, parts: Seq<Metrics>)
    requires
        node.named("StmtFor"@),
        node.children@.len() >= 2,
        measured(Dialect::Python, node, whole),
        parts_measured(Dialect::Python, node, 0, parts),
    ensures
        made_of(
            whole,
            (Tally { statements: 1, branches: 1, loops: 1, depth: 1, ..Tally::none() }),
            parts,
            |index: int|
                if index >= 2 {
                    1
                } else {
                    0
                },
        ),
{
    lemma_python_kinds();
    lemma_own(node);
    lemma_ones(node);
    let own = Tally { statements: 1, branches: 1, loops: 1, depth: 1, ..Tally::none() };
    let levels = |index: int|
        if index >= 2 {
            1nat
        } else {
            0nat
        };
    lemma_swapped(node, whole, parts, own, levels, true, false);
}

/// A generator of a comprehension is one decision and one loop, and each of its
/// conditions is one decision more, one level further in.
pub proof fn a_generator_is_a_loop_with_conditions(
    node: SyntaxNode,
    whole: Metrics,
    parts: Seq<Metrics>,
)
    requires
        node.named("Comprehension"@),
        node.children@.len() >= 2,
        measured(Dialect::Python, node, whole),
        parts_measured(Dialect::Python, node, 0, parts),
    ensures
        ({
            let conditions = (parts.len() - 2) as nat;
            made_of(
                whole,
                Tally {
                    branches: 1 + conditions,
                    loops: 1,
                    nesting: conditions,
                    depth: if conditions > 0 {
                        2
                    } else {
                        1
                    },
                    ..Tally::none()
                },
                parts,
                |index: int|
                    if index >= 2 {
                        1
                    } else {
                        0
                    },
            )
        }),
{
    lemma_python_kinds();
    lemma_own(node);
    lemma_ones(node);
    let conditions = (parts.len() - 2) as nat;
    let own = Tally {
        branches: 1 + conditions,
        loops: 1,
        nesting: conditions,
        depth: if conditions > 0 {
            2
        } else {
            1
        },
        ..Tally::none()
    };
    let levels = |index: int|
        if index >= 2 {
            1nat
        } else {
            0nat
        };
    lemma_swapped(node, whole, parts, own, levels, true, true);
}

/// A comprehension adds nothing itself. Each of its generators stands one level
/// further in than the one before it, and what it makes inside them all.
pub proof fn a_comprehension_nests_its_generators(
    node: SyntaxNode,
    elements: nat,
    whole: Metrics,
    parts: Seq<Metrics>,
)
    requires
        node.named("ExprListComp"@) || node.named("ExprSetComp"@) || node.named("ExprDictComp"@)
            || node.named("ExprGenerator"@),
        elements <= node.children@.len(),
        forall|index: int|
            0 <= index < elements ==> !(#[trigger] node.children@[index]).named("Comprehension"@),
        forall|index: int|
            elements <= index < node.children@.len() ==> (#[trigger] node.children@[index]).named(
                "Comprehension"@,
            ),
        measured(Dialect::Python, node, whole),
        parts_measured(Dialect::Python, node, 0, parts),
    ensures
        made_of(
            whole,
            Tally::none(),
            parts,
            |index: int|
                if index >= elements {
                    (index - elements) as nat
                } else {
                    (parts.len() - elements) as nat
                },
        ),
{
    lemma_python_kinds();
    lemma_own(node);
    let children = node.children@;
    let list = steps(Dialect::Python, node, 0, false);
    let count = (parts.len() - elements) as nat;
    lemma_named_from(children, "Comprehension"@, elements, children.len());
    assert(node.children.len() == children.len());
    let levels = |index: int|
        if index >= elements {
            (index - elements) as nat
        } else {
            (parts.len() - elements) as nat
        };
    let turned = parts.skip(elements as int) + parts.take(elements as int);
    let turned_levels = |index: int|
        if index < count {
            index as nat
        } else {
            count
        };
    assert(python_particular(node, 0) =~= Seq::<Signal>::empty());
    assert forall|index: int| 0 <= index < list.len() implies {
        let step = #[trigger] list[index];
        &&& step.child < children.len()
        &&& step.depth == turned_levels(index)
        &&& !step.branch
        &&& !step.quiet
        &&& measured(Dialect::Python, children[step.child as int], turned[index])
    } by {
        if index < count {
            let from = elements + index;
            assert(measured(Dialect::Python, children[0 + from], parts[from]));
        } else {
            let from = index - count;
            assert(measured(Dialect::Python, children[0 + from], parts[from]));
        }
    }
    lemma_no_openings(list, list.len());
    lemma_made(Dialect::Python, node, whole, Tally::none(), turned, turned_levels);
    lemma_gathered_turned(parts, levels, elements, turned, turned_levels);
}

/// A `match` is one decision and has its cases, which stand one level further in
/// than what is matched.
pub proof fn a_python_match_is_one_decision_with_arms(
    node: SyntaxNode,
    whole: Metrics,
    parts: Seq<Metrics>,
)
    requires
        node.named("StmtMatch"@),
        node.children@.len() > 0,
        !node.children@[0].named("MatchCase"@),
        forall|index: int|
            1 <= index < node.children@.len() ==> (#[trigger] node.children@[index]).named(
                "MatchCase"@,
            ),
        measured(Dialect::Python, node, whole),
        parts_measured(Dialect::Python, node, 0, parts),
    ensures
        made_of(
            whole,
            (Tally {
                statements: 1,
                branches: 1,
                depth: 1,
                arms: (parts.len() - 1) as nat,
                ..Tally::none()
            }),
            parts,
            |index: int|
                if index == 0 {
                    0
                } else {
                    1
                },
        ),
{
    lemma_python_kinds();
    lemma_own(node);
    lemma_ones(node);
    let children = node.children@;
    lemma_named_from(children, "MatchCase"@, 1, children.len());
    lemma_parts(SignalKind::MatchArm, children, "MatchCase"@, children.len());
    lemma_tallied_concat(
        seq![node_signal(SignalKind::Branch, node, 0)],
        part_signals(SignalKind::MatchArm, children, "MatchCase"@, 0, children.len()),
    );
    let levels = |index: int|
        if index == 0 {
            0nat
        } else {
            1nat
        };
    assert(ordered(node, levels));
    lemma_ordered(node, whole, parts, levels);
}

/// A case of a `match` with a guard is one decision at the level of the case; one
/// without is none. Nothing of it stands further in.
pub proof fn a_python_guard_is_one_decision(
    node: SyntaxNode,
    whole: Metrics,
    parts: Seq<Metrics>,
)
    requires
        node.named("MatchCase"@),
        node.children@.len() == 2 || node.children@.len() == 3,
        measured(Dialect::Python, node, whole),
        parts_measured(Dialect::Python, node, 0, parts),
    ensures
        made_of(
            whole,
            (if parts.len() == 3 {
                Tally { branches: 1, depth: 1, ..Tally::none() }
            } else {
                Tally::none()
            }),
            parts,
            level(),
        ),
{
    lemma_python_kinds();
    lemma_own(node);
    let list = steps(Dialect::Python, node, 0, false);
    assert(python_particular(node, 0) =~= Seq::<Signal>::empty());
    assert(node.children.len() == node.children@.len());
    assert forall|index: int| 0 <= index < list.len() implies {
        let step = #[trigger] list[index];
        &&& step.child < node.children@.len()
        &&& step.depth == level()(index)
        &&& !step.quiet
        &&& measured(Dialect::Python, node.children@[step.child as int], parts[index])
    } by {
        assert(measured(Dialect::Python, node.children@[0 + index], parts[index]));
    }
    reveal_with_fuel(openings, 4);
    let own = if parts.len() == 3 {
        Tally { branches: 1, depth: 1, ..Tally::none() }
    } else {
        Tally::none()
    };
    assert(own == tallied(python_own(node, 0)).plus(openings(list, list.len())));
    lemma_made(Dialect::Python, node, whole, own, parts, level());
}

/// A conditional expression is one decision. Its condition, which stands in its
/// middle, stays at its level; its two values stand one level further in.
pub proof fn a_conditional_expression_is_one_decision(
    node: SyntaxNode,
    whole: Metrics,
    parts: Seq<Metrics>,
)
    requires
        node.named("ExprIf"@),
        node.children@.len() == 3,
        measured(Dialect::Python, node, whole),
        parts_measured(Dialect::Python, node, 0, parts),
    ensures
        made_of(
            whole,
            (Tally { branches: 1, depth: 1, ..Tally::none() }),
            parts,
            |index: int|
                if index == 1 {
                    0
                } else {
                    1
                },
        ),
{
    lemma_python_kinds();
    lemma_own(node);
    lemma_ones(node);
    let list = steps(Dialect::Python, node, 0, false);
    let own = Tally { branches: 1, depth: 1, ..Tally::none() };
    let moved = seq![parts[1], parts[0], parts[2]];
    let moved_levels = |index: int|
        if index == 0 {
            0nat
        } else {
            1nat
        };
    let levels = |index: int|
        if index == 1 {
            0nat
        } else {
            1nat
        };
    assert(measured(Dialect::Python, node.children@[0], parts[0]));
    assert(measured(Dialect::Python, node.children@[1], parts[1]));
    assert(measured(Dialect::Python, node.children@[2], parts[2]));
    assert(list =~= seq![at(1, 0), at(0, 1), at(2, 1)]);
    lemma_no_openings(list, list.len());
    lemma_made(Dialect::Python, node, whole, own, moved, moved_levels);
    reveal_with_fuel(gathered, 4);
    assert(gathered(moved, moved_levels, 3) == gathered(parts, levels, 3));
}

/// An assignment is one operation and one mutation, as a statement or within an
/// expression.
pub proof fn an_assignment_is_one_operation(node: SyntaxNode, whole: Metrics, parts: Seq<Metrics>)
    requires
        node.named("StmtAssign"@) || node.named("StmtAugAssign"@) || node.named("StmtAnnAssign"@)
            || node.named("StmtTypeAlias"@) || node.named("ExprNamed"@),
        node.children@.len() >= 2,
        measured(Dialect::Python, node, whole),
        parts_measured(Dialect::Python, node, 0, parts),
    ensures
        made_of(
            whole,
            (Tally {
                statements: if node.named("ExprNamed"@) {
                    0
                } else {
                    1
                },
                operations: 1,
                mutations: 1,
                ..Tally::none()
            }),
            parts,
            level(),
        ),
{
    lemma_python_kinds();
    lemma_own(node);
    lemma_ones(node);
    let list = steps(Dialect::Python, node, 0, false);
    let children = node.children@;
    let own = tallied(python_own(node, 0));
    assert(node.children.len() == children.len());
    if node.named("StmtTypeAlias"@) {
        assert(ordered(node, level()));
        lemma_ordered(node, whole, parts, level());
    } else if node.named("StmtAssign"@) {
        let last = (parts.len() - 1) as nat;
        let turned = parts.skip(last as int) + parts.take(last as int);
        assert forall|index: int| 0 <= index < list.len() implies {
            let step = #[trigger] list[index];
            &&& step.child < children.len()
            &&& step.depth == level()(index)
            &&& !step.branch
            &&& !step.quiet
            &&& measured(Dialect::Python, children[step.child as int], turned[index])
        } by {
            let from = if index == 0 {
                last as int
            } else {
                index - 1
            };
            assert(measured(Dialect::Python, children[0 + from], parts[from]));
        }
        lemma_no_openings(list, list.len());
        assert(own == own.plus(Tally::none()));
        lemma_made(Dialect::Python, node, whole, own, turned, level());
        lemma_gathered_turned(parts, level(), last, turned, level());
    } else {
        assert(own == own.plus(Tally::none()));
        lemma_swapped(node, whole, parts, own, level(), false, false);
    }
}

/// What any other construct that its parts are looked into adds itself, by its
/// kind. Nothing of it stands further in.
pub proof fn other_python_constructs_count_by_their_kind(
    node: SyntaxNode,
    whole: Metrics,
    parts: Seq<Metrics>,
)
    requires
        measured(Dialect::Python, node, whole),
        parts_measured(Dialect::Python, node, 0, parts),
    ensures
        node.named("StmtDelete"@) ==> made_of(
            whole,
            (Tally { statements: 1, mutations: parts.len(), ..Tally::none() }),
            parts,
            level(),
        ),
        node.named("StmtReturn"@) ==> made_of(
            whole,
            (Tally { statements: 1, returns: 1, ..Tally::none() }),
            parts,
            level(),
        ),
        node.named("StmtWith"@) ==> made_of(
            whole,
            (Tally {
                statements: 1,
                operations: named_count(node.children@, "WithItem"@, node.children@.len()),
                ..Tally::none()
            }),
            parts,
            level(),
        ),
        node.named("ExprBoolOp"@) && parts.len() > 0 ==> made_of(
            whole,
            (Tally { operators: (parts.len() - 1) as nat, ..Tally::none() }),
            parts,
            level(),
        ),
        node.named("ExprCompare"@) && parts.len() > 0 ==> made_of(
            whole,
            (Tally { operations: (parts.len() - 1) as nat, ..Tally::none() }),
            parts,
            level(),
        ),
        node.named("ExprBinOp"@) || node.named("ExprUnaryOp"@) || node.named("ExprSubscript"@)
            || node.named("ExprAwait"@) || node.named("ExprYield"@) || node.named(
            "ExprYieldFrom"@,
        ) ==> made_of(whole, (Tally { operations: 1, ..Tally::none() }), parts, level()),
        node.named("ExprCall"@) ==> made_of(
            whole,
            (Tally { calls: 1, ..Tally::none() }),
            parts,
            level(),
        ),
{
    lemma_python_kinds();
    lemma_own(node);
    lemma_ones(node);
    lemma_repeated(SignalKind::Mutation, node, parts.len());
    if parts.len() > 0 {
        lemma_repeated(SignalKind::BooleanOperator, node, (parts.len() - 1) as nat);
        lemma_repeated(SignalKind::Operation, node, (parts.len() - 1) as nat);
    }
    lemma_parts(SignalKind::Operation, node.children@, "WithItem"@, node.children@.len());
    if node.named("StmtDelete"@) || node.named("StmtReturn"@) || node.named("StmtWith"@)
        || node.named("ExprBoolOp"@) || node.named("ExprCompare"@) || node.named("ExprBinOp"@)
        || node.named("ExprUnaryOp"@) || node.named("ExprSubscript"@) || node.named("ExprAwait"@)
        || node.named("ExprYield"@) || node.named("ExprYieldFrom"@) || node.named("ExprCall"@) {
        assert(ordered(node, level()));
        lemma_ordered(node, whole, parts, level());
    }
}

/// Whether the name of a node's kind says that the node counts for anything, or
/// that its parts are not simply looked into in their order.
pub open spec fn particular_python_kind(kind: Seq<char>) -> bool {
    ||| kind == "StmtIf"@
    ||| kind == "StmtWhile"@
    ||| kind == "StmtTry"@
    ||| kind == "StmtFor"@
    ||| kind == "StmtMatch"@
    ||| kind == "StmtWith"@
    ||| kind == "StmtDelete"@
    ||| kind == "StmtReturn"@
    ||| kind == "StmtAssign"@
    ||| kind == "StmtAugAssign"@
    ||| kind == "StmtAnnAssign"@
    ||| kind == "StmtTypeAlias"@
    ||| kind == "StmtFunctionDef"@
    ||| kind == "StmtClassDef"@
    ||| kind == "ElifElseClause"@
    ||| kind == "ExceptHandlerExceptHandler"@
    ||| kind == "Comprehension"@
    ||| kind == "MatchCase"@
    ||| kind == "ExprIf"@
    ||| kind == "ExprNamed"@
    ||| kind == "ExprBoolOp"@
    ||| kind == "ExprCompare"@
    ||| kind == "ExprBinOp"@
    ||| kind == "ExprUnaryOp"@
    ||| kind == "ExprSubscript"@
    ||| kind == "ExprAwait"@
    ||| kind == "ExprYield"@
    ||| kind == "ExprYieldFrom"@
    ||| kind == "ExprCall"@
    ||| kind == "ExprLambda"@
    ||| kind == "ExprListComp"@
    ||| kind == "ExprSetComp"@
    ||| kind == "ExprDictComp"@
    ||| kind == "ExprGenerator"@
    ||| kind == "Parameters"@
    ||| kind == "Arguments"@
    ||| kind == "ParameterWithDefault"@
}

/// All other nodes add nothing to their parts, but for one statement where they
/// are one.
pub proof fn other_python_nodes_add_nothing(node: SyntaxNode, whole: Metrics, parts: Seq<Metrics>)
    requires
        !particular_python_kind(node.kind@),
        measured(Dialect::Python, node, whole),
        parts_measured(Dialect::Python, node, 0, parts),
    ensures
        made_of(
            whole,
            (Tally {
                statements: if begins(node.kind@, "Stmt"@) {
                    1
                } else {
                    0
                },
                ..Tally::none()
            }),
            parts,
            level(),
        ),
{
    lemma_own(node);
    assert(python_particular(node, 0) =~= Seq::<Signal>::empty());
    assert(ordered(node, level()));
    lemma_ordered(node, whole, parts, level());
}

proof fn lemma_picked(
    node: SyntaxNode,
    kind: Seq<char>,
    parts: Seq<Metrics>,
    wanted: bool,
    count: nat,
)
    requires
        count <= node.children@.len(),
        parts_measured(Dialect::Python, node, 0, parts),
        gathered(parts, level(), count).nesting < usize::MAX,
    ensures
        ({
            let yes = picked_steps(node.children@, kind, wanted, false, 0, count);
            let no = picked_steps(node.children@, kind, !wanted, false, 0, count);
            steps_tally(Dialect::Python, node, yes, yes.len()).plus(
                steps_tally(Dialect::Python, node, no, no.len()),
            ) == gathered(parts, level(), count)
        }),
    decreases count,
{
    if count > 0 {
        lemma_gathered_grows(parts, level(), (count - 1) as nat, count);
        lemma_picked(node, kind, parts, wanted, (count - 1) as nat);
        assert(node.children.len() == node.children@.len());
        let taken = node.children@[count - 1].named(kind) == wanted;
        let list = picked_steps(node.children@, kind, if taken {
            wanted
        } else {
            !wanted
        }, false, 0, count);
        let earlier = picked_steps(node.children@, kind, if taken {
            wanted
        } else {
            !wanted
        }, false, 0, (count - 1) as nat);
        lemma_steps_prefix(node, earlier, list, earlier.len());
        assert(measured(Dialect::Python, node.children@[0 + (count - 1)], parts[count - 1]));
        lemma_part_under(Dialect::Python, node.children@[count - 1], parts[count - 1], 0);
    }
}

proof fn lemma_steps_prefix(node: SyntaxNode, shorter: Seq<Step>, longer: Seq<Step>, count: nat)
    requires
        count <= shorter.len() <= longer.len(),
        forall|index: int| 0 <= index < shorter.len() ==> shorter[index] == longer[index],
    ensures
        steps_tally(Dialect::Python, node, shorter, count) == steps_tally(
            Dialect::Python,
            node,
            longer,
            count,
        ),
    decreases count,
{
    if count > 0 {
        lemma_steps_prefix(node, shorter, longer, (count - 1) as nat);
    }
}

proof fn lemma_steps_concat(node: SyntaxNode, left: Seq<Step>, right: Seq<Step>, count: nat)
    requires
        count <= right.len(),
    ensures
        steps_tally(Dialect::Python, node, left + right, left.len() + count) == steps_tally(
            Dialect::Python,
            node,
            left,
            left.len(),
        ).plus(steps_tally(Dialect::Python, node, right, count)),
    decreases count,
{
    if count == 0 {
        lemma_steps_prefix(node, left, left + right, left.len());
    } else {
        lemma_steps_concat(node, left, right, (count - 1) as nat);
        assert((left + right)[left.len() + count - 1] == right[count - 1]);
    }
}

/// Arguments add nothing to their parts, by place or by name.
pub proof fn arguments_add_nothing(node: SyntaxNode, whole: Metrics, parts: Seq<Metrics>)
    requires
        node.named("Arguments"@),
        measured(Dialect::Python, node, whole),
        parts_measured(Dialect::Python, node, 0, parts),
    ensures
        made_of(whole, Tally::none(), parts, level()),
{
    lemma_python_kinds();
    lemma_own(node);
    assert(python_particular(node, 0) =~= Seq::<Signal>::empty());
    let children = node.children@;
    let list = steps(Dialect::Python, node, 0, false);
    let sum = Tally::none().plus(gathered(parts, level(), parts.len()));
    if sum.nesting < usize::MAX {
        let first = picked_steps(children, "Keyword"@, false, false, 0, children.len());
        let second = picked_steps(children, "Keyword"@, true, false, 0, children.len());
        lemma_picked(node, "Keyword"@, parts, false, children.len());
        lemma_steps_concat(node, first, second, second.len());
        lemma_walk_tally(Dialect::Python, node, 0, false);
        lemma_measured(
            whole,
            signals(Dialect::Python, node, 0),
            whole.code_lines,
            whole.parameters,
            whole.explicit_parameters,
        );
    }
}

proof fn lemma_header(node: SyntaxNode, body: int, count: nat)
    requires
        0 <= body < node.children@.len(),
        count <= node.children@.len(),
        forall|index: int|
            0 <= index < node.children@.len() ==> ((#[trigger] node.children@[index]).named(
                "Body"@,
            ) <==> index == body),
    ensures
        header_steps(node.children@, 0, count) == if count <= body {
            plain_steps(count, 0)
        } else {
            Seq::new(
                (count - 1) as nat,
                |index: int|
                    at(
                        if index < body {
                            index
                        } else {
                            index + 1
                        },
                        0,
                    ),
            )
        },
    decreases count,
{
    if count > 0 {
        lemma_header(node, body, (count - 1) as nat);
        assert(node.children@[count - 1].named("Body"@) <==> count - 1 == body);
    }
    assert(header_steps(node.children@, 0, count) =~= if count <= body {
        plain_steps(count, 0)
    } else {
        Seq::new(
            (count - 1) as nat,
            |index: int|
                at(
                    if index < body {
                        index
                    } else {
                        index + 1
                    },
                    0,
                ),
        )
    });
}

/// A function or a class within another body is one statement there, with what its
/// header holds: its own body belongs to a unit of its own.
pub proof fn definitions_within_keep_their_bodies(
    node: SyntaxNode,
    body: int,
    whole: Metrics,
    header: Seq<Metrics>,
)
    requires
        node.named("StmtFunctionDef"@) || node.named("StmtClassDef"@),
        0 <= body < node.children@.len(),
        forall|index: int|
            0 <= index < node.children@.len() ==> ((#[trigger] node.children@[index]).named(
                "Body"@,
            ) <==> index == body),
        measured(Dialect::Python, node, whole),
        header.len() == node.children@.len() - 1,
        forall|index: int|
            0 <= index < header.len() ==> measured(
                Dialect::Python,
                node.children@[if index < body {
                    index
                } else {
                    index + 1
                }],
                #[trigger] header[index],
            ),
    ensures
        made_of(whole, (Tally { statements: 1, ..Tally::none() }), header, level()),
{
    lemma_python_kinds();
    lemma_own(node);
    assert(python_particular(node, 0) =~= Seq::<Signal>::empty());
    let list = steps(Dialect::Python, node, 0, false);
    let own = Tally { statements: 1, ..Tally::none() };
    assert(node.children.len() == node.children@.len());
    lemma_header(node, body, node.children@.len());
    assert forall|index: int| 0 <= index < list.len() implies {
        let step = #[trigger] list[index];
        &&& step.child < node.children@.len()
        &&& step.depth == level()(index)
        &&& !step.branch
        &&& !step.quiet
        &&& measured(Dialect::Python, node.children@[step.child as int], header[index])
    } by {
        let part = header[index];
    }
    lemma_no_openings(list, list.len());
    assert(own == own.plus(Tally::none()));
    lemma_made(Dialect::Python, node, whole, own, header, level());
}

/// A lambda counts as one closure where it stands, with what its parameters hold:
/// its body belongs to a callable of its own.
pub proof fn a_lambda_within_keeps_its_body(node: SyntaxNode, whole: Metrics, header: Metrics)
    requires
        node.named("ExprLambda"@),
        node.children@.len() == 2,
        node.children@[0].named("Parameters"@),
        measured(Dialect::Python, node, whole),
        measured(Dialect::Python, node.children@[0], header),
    ensures
        made_of(whole, (Tally { closures: 1, ..Tally::none() }), seq![header], level()),
{
    lemma_python_kinds();
    lemma_own(node);
    lemma_ones(node);
    let list = steps(Dialect::Python, node, 0, false);
    let own = Tally { closures: 1, ..Tally::none() };
    assert(list =~= seq![at(0, 0)]);
    lemma_no_openings(list, list.len());
    assert(own == own.plus(Tally::none()));
    lemma_made(Dialect::Python, node, whole, own, seq![header], level());
}

/// A loop with a condition and no `else`: its decisions and those of its body, each
/// of them one deeper than where the body stands by itself.
pub proof fn a_python_while_deepens_its_body(
    node: SyntaxNode,
    whole: Metrics,
    condition: Metrics,
    body: Metrics,
)
    requires
        node.named("StmtWhile"@),
        node.children@.len() == 2,
        !node.children@[0].named("Body"@),
        node.children@[1].named("Body"@),
        measured(Dialect::Python, node, whole),
        measured(Dialect::Python, node.children@[0], condition),
        measured(Dialect::Python, node.children@[1], body),
        condition.nesting_penalty + body.nesting_penalty + body.control_decisions < usize::MAX,
    ensures
        whole.control_decisions == condition.control_decisions + body.control_decisions + 1,
        whole.branches == condition.branches + body.branches + 1,
        whole.loops == condition.loops + body.loops + 1,
        whole.nesting_penalty == condition.nesting_penalty + body.nesting_penalty
            + body.control_decisions,
{
    let parts = seq![condition, body];
    lemma_python_kinds();
    assert(parts_measured(Dialect::Python, node, 0, parts));
    conditions_are_one_decision_each(node, whole, parts);
    reveal_with_fuel(gathered, 3);
    lemma_decisions(node, whole);
    lemma_decisions(node.children@[0], condition);
    lemma_decisions(node.children@[1], body);
    assert(0 * (tally_of(condition).branches + tally_of(condition).guards) == 0)
        by (nonlinear_arith);
}

proof fn lemma_decisions(node: SyntaxNode, metrics: Metrics)
    requires
        measured(Dialect::Python, node, metrics),
    ensures
        metrics.branches <= metrics.control_decisions,
{
}

}
