//! What each construct of JavaScript and TypeScript source adds to the metrics of
//! a callable.
//!
//! Every law relates what is measured of a construct to what is measured of its
//! parts, each by itself.
use vstd::prelude::*;
use crate::javascript_syntax::{
    closed_off, javascript_own, javascript_part_steps, javascript_particular, left_out, passed_over,
    within_branch,
};
use crate::kinds::lemma_javascript_kinds;
use crate::model::Metrics;
use crate::node_signals::{node_signal, part_signals, repeated_signal};
use crate::rust_laws::level;
use crate::signals::{Signal, SignalKind};
use crate::syntax::SyntaxNode;
use crate::tallies::{
    gathered, lemma_gathered_grows, lemma_measured, lemma_part_under, lemma_tallied_concat,
    lemma_tallied_one, lemma_tallied_two, lemma_walk_tally, made_of, measured, parts_measured,
    single, steps_tally, tallied, tally_of, Tally,
};
use crate::walk::{signals, steps, walk_signals, Dialect, Step};

verus! {

/// Whether metrics and what is left out of them are `own` and those of parts, each
/// at so many levels. Nothing is claimed where the nesting penalty exceeds the range
/// of its type.
pub open spec fn made_without(
    whole: Metrics,
    left: Tally,
    own: Tally,
    parts: Seq<Metrics>,
    levels: spec_fn(int) -> nat,
) -> bool {
    let sum = own.plus(gathered(parts, levels, parts.len()));
    sum.nesting < usize::MAX ==> tally_of(whole).plus(left) == sum
}

/// What the parts among the first `count` would send that are left out.
spec fn left_upto(node: SyntaxNode, count: nat) -> Tally
    decreases count,
{
    if count == 0 {
        Tally::none()
    } else {
        left_upto(node, (count - 1) as nat).plus(
            if left_out(node, count - 1) {
                tallied(javascript_own(node.children@[count - 1], 0))
            } else {
                Tally::none()
            },
        )
    }
}

/// The branches that open with handlers among the first `count` parts.
spec fn opened_upto(node: SyntaxNode, count: nat) -> Tally
    decreases count,
{
    if count == 0 {
        Tally::none()
    } else {
        opened_upto(node, (count - 1) as nat).plus(
            if node.named("TryStatement"@) && node.children@[count - 1].named("CatchClause"@) {
                Tally { branches: 1, depth: 1, ..Tally::none() }
            } else {
                Tally::none()
            },
        )
    }
}

proof fn lemma_left_own(part: SyntaxNode, depth: usize)
    requires
        part.named("VariableDeclaration"@) || part.named("ComputedMemberExpression"@),
    ensures
        tallied(javascript_own(part, depth)) == if part.named("VariableDeclaration"@) {
            Tally { statements: 1, ..Tally::none() }
        } else {
            Tally { operations: 1, ..Tally::none() }
        },
{
    lemma_javascript_kinds();
    lemma_tallied_one(node_signal(SignalKind::Statement, part, depth));
    lemma_tallied_one(node_signal(SignalKind::Operation, part, depth));
    if part.named("VariableDeclaration"@) {
        assert(javascript_own(part, depth) =~= seq![
            node_signal(SignalKind::Statement, part, depth),
        ]);
    } else {
        assert(javascript_own(part, depth) =~= seq![
            node_signal(SignalKind::Operation, part, depth),
        ]);
    }
}

proof fn lemma_quiet(part: SyntaxNode, metrics: Metrics, depth: usize)
    requires
        part.named("VariableDeclaration"@) || part.named("ComputedMemberExpression"@),
        measured(Dialect::JavaScript, part, metrics),
        tally_of(metrics).under(depth as nat).nesting < usize::MAX,
    ensures
        tallied(walk_signals(Dialect::JavaScript, part, depth, true)).plus(
            tallied(javascript_own(part, 0)),
        ) == tally_of(metrics).under(depth as nat),
{
    lemma_left_own(part, depth);
    lemma_left_own(part, 0);
    lemma_part_under(Dialect::JavaScript, part, metrics, depth);
    lemma_walk_tally(Dialect::JavaScript, part, depth, true);
    lemma_walk_tally(Dialect::JavaScript, part, depth, false);
}

proof fn lemma_steps_prefix(node: SyntaxNode, shorter: Seq<Step>, longer: Seq<Step>, count: nat)
    requires
        count <= shorter.len() <= longer.len(),
        forall|index: int| 0 <= index < shorter.len() ==> shorter[index] == longer[index],
    ensures
        steps_tally(Dialect::JavaScript, node, shorter, count) == steps_tally(
            Dialect::JavaScript,
            node,
            longer,
            count,
        ),
    decreases count,
{
    if count > 0 {
        lemma_steps_prefix(node, shorter, longer, (count - 1) as nat);
    }
}

proof fn lemma_script_parts(
    node: SyntaxNode,
    parts: Seq<Metrics>,
    levels: spec_fn(int) -> nat,
    count: nat,
)
    requires
        count <= node.children@.len(),
        parts_measured(Dialect::JavaScript, node, 0, parts),
        gathered(parts, levels, count).nesting < usize::MAX,
        forall|index: int| 0 <= index < parts.len() ==> !#[trigger] passed_over(node, index),
        forall|index: int|
            0 <= index < parts.len() ==> #[trigger] levels(index) == if within_branch(
                node,
                index,
            ) {
                1nat
            } else {
                0nat
            },
    ensures
        ({
            let list = javascript_part_steps(node, 0, count);
            steps_tally(Dialect::JavaScript, node, list, list.len()).plus(left_upto(node, count))
                == opened_upto(node, count).plus(gathered(parts, levels, count))
        }),
    decreases count,
{
    if count > 0 {
        lemma_javascript_kinds();
        lemma_gathered_grows(parts, levels, (count - 1) as nat, count);
        lemma_script_parts(node, parts, levels, (count - 1) as nat);
        let part = node.children@[count - 1];
        let metrics = parts[count - 1];
        let list = javascript_part_steps(node, 0, count);
        let earlier = javascript_part_steps(node, 0, (count - 1) as nat);
        assert(node.children.len() == node.children@.len());
        assert(levels(count - 1) == levels(count - 1));
        assert(measured(Dialect::JavaScript, node.children@[0 + (count - 1)], metrics));
        lemma_steps_prefix(node, earlier, list, earlier.len());
        let step = list[earlier.len() as int];
        if step.quiet {
            lemma_quiet(part, metrics, step.depth);
        } else {
            lemma_part_under(Dialect::JavaScript, part, metrics, step.depth);
        }
    }
}

proof fn lemma_script(
    node: SyntaxNode,
    whole: Metrics,
    left: Tally,
    own: Tally,
    parts: Seq<Metrics>,
    levels: spec_fn(int) -> nat,
)
    requires
        !closed_off(node),
        measured(Dialect::JavaScript, node, whole),
        parts_measured(Dialect::JavaScript, node, 0, parts),
        left == left_upto(node, parts.len()),
        own == tallied(javascript_own(node, 0)).plus(opened_upto(node, parts.len())),
        forall|index: int| 0 <= index < parts.len() ==> !#[trigger] passed_over(node, index),
        forall|index: int|
            0 <= index < parts.len() ==> #[trigger] levels(index) == if within_branch(
                node,
                index,
            ) {
                1nat
            } else {
                0nat
            },
    ensures
        made_without(whole, left, own, parts, levels),
{
    let sum = own.plus(gathered(parts, levels, parts.len()));
    if sum.nesting < usize::MAX {
        lemma_script_parts(node, parts, levels, parts.len());
        lemma_walk_tally(Dialect::JavaScript, node, 0, false);
        lemma_measured(
            whole,
            signals(Dialect::JavaScript, node, 0),
            whole.code_lines,
            whole.parameters,
            whole.explicit_parameters,
        );
        assert(left_upto(node, parts.len()).nesting == 0 && left_upto(node, parts.len()).depth == 0)
            by {
            lemma_left_flat(node, parts.len());
        }
    }
}

proof fn lemma_left_flat(node: SyntaxNode, count: nat)
    requires
        count <= node.children@.len(),
    ensures
        left_upto(node, count).nesting == 0,
        left_upto(node, count).depth == 0,
    decreases count,
{
    if count > 0 {
        lemma_left_flat(node, (count - 1) as nat);
        if left_out(node, count - 1) {
            lemma_left_own(node.children@[count - 1], 0);
        }
    }
}

proof fn lemma_no_left(node: SyntaxNode, count: nat)
    requires
        count <= node.children@.len(),
        forall|index: int| 0 <= index < node.children@.len() ==> !#[trigger] left_out(node, index),
    ensures
        left_upto(node, count) == Tally::none(),
    decreases count,
{
    if count > 0 {
        lemma_no_left(node, (count - 1) as nat);
        assert(!left_out(node, count - 1));
    }
}

proof fn lemma_first_left(node: SyntaxNode, count: nat)
    requires
        count <= node.children@.len(),
        forall|index: int|
            0 < index < node.children@.len() ==> !#[trigger] left_out(node, index),
    ensures
        left_upto(node, count) == if count > 0 && left_out(node, 0) {
            tallied(javascript_own(node.children@[0], 0))
        } else {
            Tally::none()
        },
    decreases count,
{
    if count > 0 {
        lemma_first_left(node, (count - 1) as nat);
        if count > 1 {
            assert(!left_out(node, count - 1));
        }
    }
}

proof fn lemma_no_opened(node: SyntaxNode, count: nat)
    requires
        !node.named("TryStatement"@),
    ensures
        opened_upto(node, count) == Tally::none(),
    decreases count,
{
    if count > 0 {
        lemma_no_opened(node, (count - 1) as nat);
    }
}

/// Whether the name of a node's kind says that it is one statement.
pub open spec fn statement_kind(kind: Seq<char>) -> bool {
    ||| kind == "VariableDeclaration"@
    ||| kind == "ExpressionStatement"@
    ||| kind == "IfStatement"@
    ||| kind == "DoWhileStatement"@
    ||| kind == "WhileStatement"@
    ||| kind == "ForStatement"@
    ||| kind == "ForInStatement"@
    ||| kind == "ForOfStatement"@
    ||| kind == "ReturnStatement"@
    ||| kind == "SwitchStatement"@
    ||| kind == "ThrowStatement"@
    ||| kind == "TryStatement"@
    ||| kind == "WithStatement"@
    ||| kind == "BreakStatement"@
    ||| kind == "ContinueStatement"@
    ||| kind == "DebuggerStatement"@
    ||| kind == "LabeledStatement"@
    ||| kind == "ExportDeclaration"@
}

/// What a node adds as the statement that it may be.
pub open spec fn as_statement(node: SyntaxNode) -> Tally {
    Tally {
        statements: if statement_kind(node.kind@) {
            1
        } else {
            0
        },
        ..Tally::none()
    }
}

proof fn lemma_own(node: SyntaxNode)
    ensures
        tallied(javascript_own(node, 0)) == as_statement(node).plus(
            tallied(javascript_particular(node, 0)),
        ),
{
    let first = if crate::javascript_syntax::counted_statement(node) {
        seq![node_signal(SignalKind::Statement, node, 0)]
    } else {
        Seq::<Signal>::empty()
    };
    lemma_tallied_one(node_signal(SignalKind::Statement, node, 0));
    lemma_tallied_concat(first, javascript_particular(node, 0));
}

proof fn lemma_ones(node: SyntaxNode)
    ensures
        tallied(seq![node_signal(SignalKind::Branch, node, 0)]) == single(
            node_signal(SignalKind::Branch, node, 0),
        ),
        tallied(seq![node_signal(SignalKind::Return, node, 0)]) == single(
            node_signal(SignalKind::Return, node, 0),
        ),
        tallied(seq![node_signal(SignalKind::Operation, node, 0)]) == single(
            node_signal(SignalKind::Operation, node, 0),
        ),
        tallied(seq![node_signal(SignalKind::CallSite, node, 0)]) == single(
            node_signal(SignalKind::CallSite, node, 0),
        ),
        tallied(seq![node_signal(SignalKind::Closure, node, 0)]) == single(
            node_signal(SignalKind::Closure, node, 0),
        ),
        tallied(seq![node_signal(SignalKind::BooleanOperator, node, 0)]) == single(
            node_signal(SignalKind::BooleanOperator, node, 0),
        ),
        tallied(
            seq![
                node_signal(SignalKind::Branch, node, 0),
                node_signal(SignalKind::Loop, node, 0),
            ],
        ) == single(node_signal(SignalKind::Branch, node, 0)).plus(
            single(node_signal(SignalKind::Loop, node, 0)),
        ),
        tallied(
            seq![
                node_signal(SignalKind::Operation, node, 0),
                node_signal(SignalKind::Mutation, node, 0),
            ],
        ) == single(node_signal(SignalKind::Operation, node, 0)).plus(
            single(node_signal(SignalKind::Mutation, node, 0)),
        ),
{
    lemma_tallied_one(node_signal(SignalKind::Branch, node, 0));
    lemma_tallied_one(node_signal(SignalKind::Return, node, 0));
    lemma_tallied_one(node_signal(SignalKind::Operation, node, 0));
    lemma_tallied_one(node_signal(SignalKind::CallSite, node, 0));
    lemma_tallied_one(node_signal(SignalKind::Closure, node, 0));
    lemma_tallied_one(node_signal(SignalKind::BooleanOperator, node, 0));
    lemma_tallied_two(
        node_signal(SignalKind::Branch, node, 0),
        node_signal(SignalKind::Loop, node, 0),
    );
    lemma_tallied_two(
        node_signal(SignalKind::Operation, node, 0),
        node_signal(SignalKind::Mutation, node, 0),
    );
}

proof fn lemma_repeated(node: SyntaxNode, count: nat)
    ensures
        tallied(repeated_signal(SignalKind::Operation, node, 0, count)) == (Tally {
            operations: count,
            ..Tally::none()
        }),
    decreases count,
{
    let list = repeated_signal(SignalKind::Operation, node, 0, count);
    if count > 0 {
        let fewer = repeated_signal(SignalKind::Operation, node, 0, (count - 1) as nat);
        lemma_repeated(node, (count - 1) as nat);
        let one = node_signal(SignalKind::Operation, node, 0);
        assert(list =~= fewer + seq![one]);
        lemma_tallied_concat(fewer, seq![one]);
        lemma_tallied_one(one);
    }
}

/// Conditions and loops without a counter are one decision each. What is decided
/// on stays at their level; what follows stands one level further in, but for an
/// `else` that goes on with an `if`.
pub proof fn script_conditions_are_one_decision_each(
    node: SyntaxNode,
    whole: Metrics,
    parts: Seq<Metrics>,
)
    requires
        node.named("IfStatement"@) || node.named("WhileStatement"@) || node.named(
            "DoWhileStatement"@,
        ) || node.named("WithStatement"@) || node.named("ConditionalExpression"@),
        parts.len() <= 3,
        measured(Dialect::JavaScript, node, whole),
        parts_measured(Dialect::JavaScript, node, 0, parts),
    ensures
        made_of(
            whole,
            (Tally {
                statements: if node.named("ConditionalExpression"@) {
                    0
                } else {
                    1
                },
                branches: 1,
                depth: 1,
                ..Tally::none()
            }),
            parts,
            |index: int|
                if node.named("DoWhileStatement"@) {
                    if index == 0 {
                        1
                    } else {
                        0
                    }
                } else if index == 0 || (index == 2 && node.named("IfStatement"@)
                    && node.children@[2].named("IfStatement"@)) {
                    0
                } else {
                    1
                },
        ),
{
    lemma_javascript_kinds();
    lemma_own(node);
    lemma_ones(node);
    let levels = |index: int|
        if node.named("DoWhileStatement"@) {
            if index == 0 {
                1nat
            } else {
                0nat
            }
        } else if index == 0 || (index == 2 && node.named("IfStatement"@)
            && node.children@[2].named("IfStatement"@)) {
            0nat
        } else {
            1nat
        };
    let own = Tally {
        statements: if node.named("ConditionalExpression"@) {
            0
        } else {
            1
        },
        branches: 1,
        depth: 1,
        ..Tally::none()
    };
    lemma_no_left(node, parts.len());
    lemma_no_opened(node, parts.len());
    lemma_script(node, whole, Tally::none(), own, parts, levels);
}

/// A `for` loop of any kind is one decision, one loop and one statement: what it
/// declares in its head is no statement more, and an element that it assigns to is
/// no operation. Its body stands one level further in.
pub proof fn a_script_loop_is_one_decision(node: SyntaxNode, whole: Metrics, parts: Seq<Metrics>)
    requires
        node.named("ForStatement"@) || node.named("ForInStatement"@) || node.named(
            "ForOfStatement"@,
        ),
        parts.len() > 1,
        measured(Dialect::JavaScript, node, whole),
        parts_measured(Dialect::JavaScript, node, 0, parts),
    ensures
        made_without(
            whole,
            (if node.children@[0].named("VariableDeclaration"@) {
                Tally { statements: 1, ..Tally::none() }
            } else if node.children@[0].named("ComputedMemberExpression"@) && !node.named(
                "ForStatement"@,
            ) {
                Tally { operations: 1, ..Tally::none() }
            } else {
                Tally::none()
            }),
            (Tally { statements: 1, branches: 1, loops: 1, depth: 1, ..Tally::none() }),
            parts,
            |index: int|
                if index == parts.len() - 1 {
                    1
                } else {
                    0
                },
        ),
{
    lemma_javascript_kinds();
    lemma_own(node);
    lemma_ones(node);
    let levels = |index: int|
        if index == parts.len() - 1 {
            1nat
        } else {
            0nat
        };
    let own = Tally { statements: 1, branches: 1, loops: 1, depth: 1, ..Tally::none() };
    if left_out(node, 0) {
        lemma_left_own(node.children@[0], 0);
    }
    lemma_first_left(node, parts.len());
    lemma_no_opened(node, parts.len());
    lemma_script(node, whole, left_upto(node, parts.len()), own, parts, levels);
}

proof fn lemma_cases(parts: Seq<SyntaxNode>, count: nat)
    requires
        count <= parts.len(),
        parts.len() > 0,
        !parts[0].named("SwitchCase"@),
        forall|index: int|
            1 <= index < parts.len() ==> (#[trigger] parts[index]).named("SwitchCase"@),
    ensures
        tallied(part_signals(SignalKind::MatchArm, parts, "SwitchCase"@, 0, count)) == (Tally {
            arms: if count > 0 {
                (count - 1) as nat
            } else {
                0
            },
            ..Tally::none()
        }),
    decreases count,
{
    if count > 0 {
        lemma_cases(parts, (count - 1) as nat);
        if count > 1 {
            assert(parts[count - 1].named("SwitchCase"@));
            let earlier = part_signals(
                SignalKind::MatchArm,
                parts,
                "SwitchCase"@,
                0,
                (count - 1) as nat,
            );
            let own = node_signal(SignalKind::MatchArm, parts[count - 1], 0);
            lemma_tallied_concat(earlier, seq![own]);
            lemma_tallied_one(own);
            assert(earlier.push(own) =~= earlier + seq![own]);
        }
    }
}

/// A `switch` is one decision and has its cases, which stand one level further in
/// than what it decides on.
pub proof fn a_switch_is_one_decision_with_arms(
    node: SyntaxNode,
    whole: Metrics,
    parts: Seq<Metrics>,
)
    requires
        node.named("SwitchStatement"@),
        node.children@.len() > 0,
        !node.children@[0].named("SwitchCase"@),
        forall|index: int|
            1 <= index < node.children@.len() ==> (#[trigger] node.children@[index]).named(
                "SwitchCase"@,
            ),
        measured(Dialect::JavaScript, node, whole),
        parts_measured(Dialect::JavaScript, node, 0, parts),
    ensures
        made_of(
            whole,
            (Tally {
                statements: 1,
                branches: 1,
                depth: 1,
                arms: (parts.len() - 1) as nat,
                ..Tally::none()
            }),
            parts,
            |index: int|
                if index == 0 {
                    0
                } else {
                    1
                },
        ),
{
    lemma_javascript_kinds();
    lemma_own(node);
    lemma_ones(node);
    lemma_cases(node.children@, node.children@.len());
    lemma_tallied_concat(
        seq![node_signal(SignalKind::Branch, node, 0)],
        part_signals(
            SignalKind::MatchArm,
            node.children@,
            "SwitchCase"@,
            0,
            node.children@.len(),
        ),
    );
    let levels = |index: int|
        if index == 0 {
            0nat
        } else {
            1nat
        };
    let own = Tally {
        statements: 1,
        branches: 1,
        depth: 1,
        arms: (parts.len() - 1) as nat,
        ..Tally::none()
    };
    lemma_no_left(node, parts.len());
    lemma_no_opened(node, parts.len());
    lemma_script(node, whole, Tally::none(), own, parts, levels);
}

/// A `try` is one statement, and one decision where it handles exceptions. Its
/// blocks stand one level further in, and so does that of its handler, by itself.
pub proof fn a_handler_is_one_decision(node: SyntaxNode, whole: Metrics, parts: Seq<Metrics>)
    requires
        node.named("TryStatement"@),
        parts.len() == 2 || parts.len() == 3,
        !node.children@[0].named("CatchClause"@),
        parts.len() == 3 ==> !node.children@[2].named("CatchClause"@),
        measured(Dialect::JavaScript, node, whole),
        parts_measured(Dialect::JavaScript, node, 0, parts),
    ensures
        made_of(
            whole,
            (if node.children@[1].named("CatchClause"@) {
                Tally { statements: 1, branches: 1, depth: 1, ..Tally::none() }
            } else {
                Tally { statements: 1, ..Tally::none() }
            }),
            parts,
            |index: int|
                if node.children@[index].named("CatchClause"@) {
                    0
                } else {
                    1
                },
        ),
{
    lemma_javascript_kinds();
    lemma_own(node);
    assert(javascript_particular(node, 0) =~= Seq::<Signal>::empty());
    let levels = |index: int|
        if node.children@[index].named("CatchClause"@) {
            0nat
        } else {
            1nat
        };
    let own = if node.children@[1].named("CatchClause"@) {
        Tally { statements: 1, branches: 1, depth: 1, ..Tally::none() }
    } else {
        Tally { statements: 1, ..Tally::none() }
    };
    lemma_no_left(node, parts.len());
    reveal_with_fuel(opened_upto, 4);
    lemma_script(node, whole, Tally::none(), own, parts, levels);
}

proof fn lemma_last_step(node: SyntaxNode, count: nat)
    requires
        count <= node.children@.len(),
        forall|index: int|
            0 <= index < node.children@.len() - 1 ==> #[trigger] passed_over(node, index),
    ensures
        count < node.children@.len() ==> javascript_part_steps(node, 0, count).len() == 0,
        count == node.children@.len() && count > 0 && !passed_over(node, count - 1)
            ==> javascript_part_steps(node, 0, count) == seq![
            Step {
                child: (count - 1) as usize,
                depth: if within_branch(node, count - 1) {
                    1
                } else {
                    0
                },
                branch: node.named("TryStatement"@) && node.children@[count - 1].named(
                    "CatchClause"@,
                ),
                quiet: left_out(node, count - 1),
            },
        ],
    decreases count,
{
    if count > 0 {
        lemma_last_step(node, (count - 1) as nat);
        if count < node.children@.len() {
            assert(passed_over(node, count - 1));
        }
    }
    if count == node.children@.len() && count > 0 && !passed_over(node, count - 1) {
        assert(javascript_part_steps(node, 0, count) =~= seq![
            Step {
                child: (count - 1) as usize,
                depth: if within_branch(node, count - 1) {
                    1
                } else {
                    0
                },
                branch: node.named("TryStatement"@) && node.children@[count - 1].named(
                    "CatchClause"@,
                ),
                quiet: left_out(node, count - 1),
            },
        ]);
    }
}

/// Of a handler of exceptions only its block is looked into, one level further in;
/// of a variable's declaration only its value, at its level.
pub proof fn patterns_are_passed_over(node: SyntaxNode, whole: Metrics, last: Metrics)
    requires
        node.named("CatchClause"@) && node.children@.len() > 0 || node.named("VariableDeclarator"@)
            && node.children@.len() == 2,
        measured(Dialect::JavaScript, node, whole),
        measured(Dialect::JavaScript, node.children@.last(), last),
    ensures
        made_of(
            whole,
            Tally::none(),
            seq![last],
            |index: int|
                if node.named("CatchClause"@) {
                    1
                } else {
                    0
                },
        ),
{
    lemma_javascript_kinds();
    lemma_own(node);
    assert(javascript_particular(node, 0) =~= Seq::<Signal>::empty());
    let list = steps(Dialect::JavaScript, node, 0, false);
    let count = node.children@.len();
    let levels = |index: int|
        if node.named("CatchClause"@) {
            1nat
        } else {
            0nat
        };
    assert(node.children.len() == count);
    lemma_last_step(node, count);
    assert(node.children@.last() == node.children@[count - 1]);
    crate::tallies::lemma_no_openings(list, list.len());
    assert(Tally::none() == Tally::none().plus(Tally::none()));
    crate::tallies::lemma_made(
        Dialect::JavaScript,
        node,
        whole,
        Tally::none(),
        seq![last],
        levels,
    );
}

/// What any other construct that its parts are looked into adds itself, by its
/// kind, where it assigns to no element. Nothing of it stands further in.
pub proof fn other_script_constructs_count_by_their_kind(
    node: SyntaxNode,
    whole: Metrics,
    parts: Seq<Metrics>,
)
    requires
        measured(Dialect::JavaScript, node, whole),
        parts_measured(Dialect::JavaScript, node, 0, parts),
    ensures
        node.named("ReturnStatement"@) ==> made_of(
            whole,
            (Tally { statements: 1, returns: 1, ..Tally::none() }),
            parts,
            level(),
        ),
        node.named("BinaryExpression"@) || node.named("UnaryExpression"@) || node.named(
            "ComputedMemberExpression"@,
        ) || node.named("PrivateInExpression"@) ==> made_of(
            whole,
            (Tally { operations: 1, ..Tally::none() }),
            parts,
            level(),
        ),
        node.named("LogicalExpression"@) ==> made_of(
            whole,
            (Tally { operators: 1, ..Tally::none() }),
            parts,
            level(),
        ),
        node.named("SequenceExpression"@) && parts.len() > 0 ==> made_of(
            whole,
            (Tally { operations: (parts.len() - 1) as nat, ..Tally::none() }),
            parts,
            level(),
        ),
        node.named("CallExpression"@) || node.named("NewExpression"@) || node.named(
            "TaggedTemplateExpression"@,
        ) || node.named("ImportExpression"@) ==> made_of(
            whole,
            (Tally { calls: 1, ..Tally::none() }),
            parts,
            level(),
        ),
        node.named("VariableDeclaration"@) || node.named("ExpressionStatement"@) || node.named(
            "ThrowStatement"@,
        ) || node.named("BreakStatement"@) || node.named("ContinueStatement"@) || node.named(
            "DebuggerStatement"@,
        ) || node.named("LabeledStatement"@) ==> made_of(
            whole,
            (Tally { statements: 1, ..Tally::none() }),
            parts,
            level(),
        ),
{
    lemma_javascript_kinds();
    lemma_own(node);
    lemma_ones(node);
    if parts.len() > 0 {
        lemma_repeated(node, (parts.len() - 1) as nat);
    }
    let own = tallied(javascript_own(node, 0));
    if node.named("ReturnStatement"@) || node.named("BinaryExpression"@) || node.named(
        "UnaryExpression"@,
    ) || node.named("ComputedMemberExpression"@) || node.named("PrivateInExpression"@)
        || node.named("LogicalExpression"@) || node.named("SequenceExpression"@) || node.named(
        "CallExpression"@,
    ) || node.named("NewExpression"@) || node.named("TaggedTemplateExpression"@) || node.named(
        "ImportExpression"@,
    ) || node.named("VariableDeclaration"@) || node.named("ExpressionStatement"@) || node.named(
        "ThrowStatement"@,
    ) || node.named("BreakStatement"@) || node.named("ContinueStatement"@) || node.named(
        "DebuggerStatement"@,
    ) || node.named("LabeledStatement"@) {
        lemma_no_left(node, parts.len());
        lemma_no_opened(node, parts.len());
        assert(own == own.plus(Tally::none()));
        lemma_script(node, whole, Tally::none(), own, parts, level());
    }
}

/// Assigning is one operation and one mutation, and so is counting up or down; a
/// chain of accesses that may stop is one Boolean operator. An element that is
/// assigned to, or that starts the chain, is no operation more.
pub proof fn an_assignment_counts_once(node: SyntaxNode, whole: Metrics, parts: Seq<Metrics>)
    requires
        node.named("AssignmentExpression"@) || node.named("UpdateExpression"@) || node.named(
            "ChainExpression"@,
        ),
        parts.len() > 0,
        measured(Dialect::JavaScript, node, whole),
        parts_measured(Dialect::JavaScript, node, 0, parts),
    ensures
        made_without(
            whole,
            (if node.children@[0].named("ComputedMemberExpression"@) {
                Tally { operations: 1, ..Tally::none() }
            } else {
                Tally::none()
            }),
            (if node.named("ChainExpression"@) {
                Tally { operators: 1, ..Tally::none() }
            } else {
                Tally { operations: 1, mutations: 1, ..Tally::none() }
            }),
            parts,
            level(),
        ),
{
    lemma_javascript_kinds();
    lemma_own(node);
    lemma_ones(node);
    let own = tallied(javascript_own(node, 0));
    if left_out(node, 0) {
        lemma_left_own(node.children@[0], 0);
    }
    lemma_first_left(node, parts.len());
    lemma_no_opened(node, parts.len());
    assert(own == own.plus(Tally::none()));
    lemma_script(node, whole, left_upto(node, parts.len()), own, parts, level());
}

/// An exported declaration is one statement, and a declaration of variables in it
/// is none more.
pub proof fn an_export_is_one_statement(node: SyntaxNode, whole: Metrics, part: Metrics)
    requires
        node.named("ExportDeclaration"@),
        node.children@.len() == 1,
        measured(Dialect::JavaScript, node, whole),
        measured(Dialect::JavaScript, node.children@[0], part),
    ensures
        made_without(
            whole,
            (if node.children@[0].named("VariableDeclaration"@) {
                Tally { statements: 1, ..Tally::none() }
            } else {
                Tally::none()
            }),
            (Tally { statements: 1, ..Tally::none() }),
            seq![part],
            level(),
        ),
{
    lemma_javascript_kinds();
    lemma_own(node);
    assert(javascript_particular(node, 0) =~= Seq::<Signal>::empty());
    let own = tallied(javascript_own(node, 0));
    if left_out(node, 0) {
        lemma_left_own(node.children@[0], 0);
    }
    lemma_first_left(node, 1);
    lemma_no_opened(node, 1);
    assert(own == own.plus(Tally::none()));
    assert(parts_measured(Dialect::JavaScript, node, 0, seq![part]));
    lemma_script(node, whole, left_upto(node, 1), own, seq![part], level());
}

/// Functions and classes keep what is in them: an arrow function or a function that
/// stands for its value counts as one closure, and anything else that is declared,
/// imported, exported under another name or in type space as nothing.
pub proof fn script_callables_within_keep_their_own(node: SyntaxNode, whole: Metrics)
    requires
        node.named("ArrowFunctionExpression"@) || node.named("Function"@) || node.named("Class"@)
            || node.named("ExportDefaultDeclaration"@) || node.named("ImportDeclaration"@)
            || node.named("ExportNamedDeclaration"@) || node.named("ExportFromDeclaration"@)
            || node.named("ExportAllDeclaration"@) || node.named("TSTypeAliasDeclaration"@)
            || node.named("TSInterfaceDeclaration"@) || node.named("TSEnumDeclaration"@)
            || node.named("TSModuleDeclaration"@) || node.named("TSGlobalDeclaration"@)
            || node.named("TSImportEqualsDeclaration"@),
        measured(Dialect::JavaScript, node, whole),
    ensures
        tally_of(whole) == (Tally {
            closures: if node.named("ArrowFunctionExpression"@) || (node.named("Function"@)
                && node.text@ == "true"@) {
                1
            } else {
                0
            },
            ..Tally::none()
        }),
{
    lemma_javascript_kinds();
    lemma_own(node);
    lemma_ones(node);
    lemma_walk_tally(Dialect::JavaScript, node, 0, false);
    lemma_measured(
        whole,
        signals(Dialect::JavaScript, node, 0),
        whole.code_lines,
        whole.parameters,
        whole.explicit_parameters,
    );
}

/// Whether the name of a node's kind says that the node counts for anything, or
/// that its parts are not simply looked into.
pub open spec fn particular_script_kind(kind: Seq<char>) -> bool {
    ||| statement_kind(kind)
    ||| kind == "ConditionalExpression"@
    ||| kind == "BinaryExpression"@
    ||| kind == "UnaryExpression"@
    ||| kind == "ComputedMemberExpression"@
    ||| kind == "PrivateInExpression"@
    ||| kind == "CallExpression"@
    ||| kind == "NewExpression"@
    ||| kind == "TaggedTemplateExpression"@
    ||| kind == "ImportExpression"@
    ||| kind == "ArrowFunctionExpression"@
    ||| kind == "Function"@
    ||| kind == "Class"@
    ||| kind == "AssignmentExpression"@
    ||| kind == "UpdateExpression"@
    ||| kind == "LogicalExpression"@
    ||| kind == "ChainExpression"@
    ||| kind == "SequenceExpression"@
    ||| kind == "ExportDefaultDeclaration"@
    ||| kind == "ImportDeclaration"@
    ||| kind == "ExportNamedDeclaration"@
    ||| kind == "ExportFromDeclaration"@
    ||| kind == "ExportAllDeclaration"@
    ||| kind == "TSTypeAliasDeclaration"@
    ||| kind == "TSInterfaceDeclaration"@
    ||| kind == "TSEnumDeclaration"@
    ||| kind == "TSModuleDeclaration"@
    ||| kind == "TSGlobalDeclaration"@
    ||| kind == "TSImportEqualsDeclaration"@
    ||| kind == "VariableDeclarator"@
    ||| kind == "CatchClause"@
    ||| kind == "FormalParameter"@
    ||| kind == "FormalParameterRest"@
    ||| kind == "ArrayAssignmentTarget"@
    ||| kind == "AssignmentTargetPropertyProperty"@
    ||| kind == "AssignmentTargetWithDefault"@
    ||| kind == "AssignmentTargetRest"@
}

/// All other nodes, such as blocks, add nothing to their parts.
pub proof fn other_script_nodes_add_nothing(
    node: SyntaxNode,
    whole: Metrics,
    parts: Seq<Metrics>,
)
    requires
        !particular_script_kind(node.kind@),
        measured(Dialect::JavaScript, node, whole),
        parts_measured(Dialect::JavaScript, node, 0, parts),
    ensures
        made_of(whole, Tally::none(), parts, level()),
{
    lemma_own(node);
    assert(javascript_particular(node, 0) =~= Seq::<Signal>::empty());
    lemma_no_left(node, parts.len());
    lemma_no_opened(node, parts.len());
    assert(Tally::none() == Tally::none().plus(Tally::none()));
    lemma_script(node, whole, Tally::none(), Tally::none(), parts, level());
}

}
