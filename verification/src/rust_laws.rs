//! What each construct of Rust source adds to the metrics of a callable.
//!
//! Every law relates what is measured of a construct to what is measured of its
//! parts, each by itself.
use vstd::prelude::*;
use crate::kinds::lemma_rust_kinds;
use crate::model::Metrics;
use crate::node_signals::{node_signal, part_signals};
use crate::rust_syntax::{attribute_count, operator, rust_own, rust_part_steps};
use crate::signals::{Signal, SignalKind};
use crate::syntax::{named_count, SyntaxNode};
use crate::tallies::{
    gathered, lemma_made, lemma_measured, lemma_no_openings, lemma_tallied_concat,
    lemma_tallied_one, lemma_tallied_two, lemma_walk_tally, made_of, measured, parts_measured,
    tallied, tally_of, Tally,
};
use crate::walk::{signals, steps, Dialect, Step};

verus! {

/// Whether the attributes of a node are its first `front` parts.
pub open spec fn attributes_first(node: SyntaxNode, front: nat) -> bool {
    &&& front <= node.children@.len()
    &&& forall|index: int|
        0 <= index < front ==> (#[trigger] node.children@[index]).named("Attribute"@)
    &&& forall|index: int|
        front <= index < node.children@.len() ==> !(#[trigger] node.children@[index]).named(
            "Attribute"@,
        )
}

proof fn lemma_attributes(node: SyntaxNode, front: nat, count: nat)
    requires
        attributes_first(node, front),
        count <= node.children@.len(),
    ensures
        named_count(node.children@, "Attribute"@, count) == if count < front {
            count
        } else {
            front
        },
    decreases count,
{
    if count > 0 {
        lemma_attributes(node, front, (count - 1) as nat);
        assert(node.children@[count - 1].named("Attribute"@) == (count - 1 < front));
    }
}

/// Whether a construct opens a branch of its own and passes over its attributes.
spec fn passing(node: SyntaxNode) -> bool {
    crate::rust_syntax::attributes_passed_over(node)
}

proof fn lemma_branch_steps(node: SyntaxNode, front: nat, count: nat)
    requires
        attributes_first(node, front),
        passing(node),
        front <= count <= node.children@.len(),
    ensures
        rust_part_steps(node, 0, count).len() == count - front,
        forall|index: int|
            0 <= index < count - front ==> #[trigger] rust_part_steps(node, 0, count)[index] == (
            Step {
                child: (front + index) as usize,
                depth: crate::rust_syntax::rust_part_depth(node, front + index, 0),
                branch: false,
                quiet: false,
            }),
    decreases count,
{
    if count > front {
        lemma_branch_steps(node, front, (count - 1) as nat);
        assert(!node.children@[count - 1].named("Attribute"@));
    } else {
        lemma_no_branch_steps(node, front, front);
    }
}

proof fn lemma_no_branch_steps(node: SyntaxNode, front: nat, count: nat)
    requires
        attributes_first(node, front),
        passing(node),
        count <= front,
    ensures
        rust_part_steps(node, 0, count).len() == 0,
    decreases count,
{
    if count > 0 {
        lemma_no_branch_steps(node, front, (count - 1) as nat);
        assert(node.children@[count - 1].named("Attribute"@));
    }
}

proof fn lemma_plain_steps(node: SyntaxNode, count: nat)
    requires
        !passing(node),
        count <= node.children@.len(),
    ensures
        rust_part_steps(node, 0, count).len() == count,
        forall|index: int|
            0 <= index < count ==> #[trigger] rust_part_steps(node, 0, count)[index] == (Step {
                child: index as usize,
                depth: crate::rust_syntax::rust_part_depth(node, index, 0),
                branch: false,
                quiet: false,
            }),
    decreases count,
{
    if count > 0 {
        lemma_plain_steps(node, (count - 1) as nat);
    }
}

proof fn lemma_branching(
    node: SyntaxNode,
    front: nat,
    whole: Metrics,
    own: Tally,
    parts: Seq<Metrics>,
    levels: spec_fn(int) -> nat,
)
    requires
        attributes_first(node, front),
        passing(node),
        !crate::rust_syntax::rust_closed_off(node),
        measured(Dialect::Rust, node, whole),
        parts_measured(Dialect::Rust, node, front, parts),
        tallied(rust_own(node, 0)) == own,
        forall|index: int|
            0 <= index < parts.len() ==> crate::rust_syntax::rust_part_depth(
                node,
                front + index,
                0,
            ) == #[trigger] levels(index),
    ensures
        made_of(whole, own, parts, levels),
{
    let list = steps(Dialect::Rust, node, 0, false);
    assert(node.children.len() == node.children@.len());
    lemma_branch_steps(node, front, node.children@.len());
    assert forall|index: int| 0 <= index < list.len() implies {
        let step = #[trigger] list[index];
        &&& step.child < node.children@.len()
        &&& step.depth == levels(index)
        &&& !step.branch
        &&& !step.quiet
        &&& measured(Dialect::Rust, node.children@[step.child as int], parts[index])
    } by {
        assert(list[index] == rust_part_steps(node, 0, node.children@.len())[index]);
        assert(levels(index) == levels(index));
        assert(measured(Dialect::Rust, node.children@[front + index], parts[index]));
    }
    lemma_no_openings(list, list.len());
    assert(own == own.plus(Tally::none()));
    lemma_made(Dialect::Rust, node, whole, own, parts, levels);
}

/// All parts at the level of the node itself.
pub open spec fn level() -> spec_fn(int) -> nat {
    |index: int| 0
}

proof fn lemma_flat(node: SyntaxNode, whole: Metrics, own: Tally, parts: Seq<Metrics>)
    requires
        !passing(node),
        !crate::rust_syntax::rust_closed_off(node),
        measured(Dialect::Rust, node, whole),
        parts_measured(Dialect::Rust, node, 0, parts),
        tallied(rust_own(node, 0)) == own,
        forall|index: int|
            0 <= index < parts.len() ==> #[trigger] crate::rust_syntax::rust_part_depth(
                node,
                index,
                0,
            ) == 0,
    ensures
        made_of(whole, own, parts, level()),
{
    let list = steps(Dialect::Rust, node, 0, false);
    assert(node.children.len() == node.children@.len());
    lemma_plain_steps(node, node.children@.len());
    assert forall|index: int| 0 <= index < list.len() implies {
        let step = #[trigger] list[index];
        &&& step.child < node.children@.len()
        &&& step.depth == level()(index)
        &&& !step.branch
        &&& !step.quiet
        &&& measured(Dialect::Rust, node.children@[step.child as int], parts[index])
    } by {
        assert(list[index] == rust_part_steps(node, 0, node.children@.len())[index]);
        assert(crate::rust_syntax::rust_part_depth(node, index, 0) == 0);
        assert(measured(Dialect::Rust, node.children@[0 + index], parts[index]));
    }
    lemma_no_openings(list, list.len());
    assert(own == own.plus(Tally::none()));
    lemma_made(Dialect::Rust, node, whole, own, parts, level());
}

/// An `if` is one decision. Its condition stays at its level; what follows it
/// stands one level further in, but for an `else` that goes on with an `if`.
pub proof fn an_if_is_one_decision(
    node: SyntaxNode,
    front: nat,
    whole: Metrics,
    parts: Seq<Metrics>,
)
    requires
        node.named("ExprIf"@),
        attributes_first(node, front),
        measured(Dialect::Rust, node, whole),
        parts_measured(Dialect::Rust, node, front, parts),
        parts.len() <= 3,
    ensures
        made_of(
            whole,
            (Tally { branches: 1, depth: 1, ..Tally::none() }),
            parts,
            |index: int|
                if index == 0 || (index == 2 && node.children@[front as int + 2].named("ExprIf"@)) {
                    0
                } else {
                    1
                },
        ),
{
    lemma_rust_kinds();
    lemma_attributes(node, front, node.children@.len());
    lemma_tallied_one(node_signal(SignalKind::Branch, node, 0));
    lemma_branching(
        node,
        front,
        whole,
        Tally { branches: 1, depth: 1, ..Tally::none() },
        parts,
        |index: int|
            if index == 0 || (index == 2 && node.children@[front as int + 2].named("ExprIf"@)) {
                0
            } else {
                1
            },
    );
}

proof fn lemma_arm_signals(parts: Seq<SyntaxNode>, count: nat)
    requires
        count <= parts.len(),
    ensures
        tallied(part_signals(SignalKind::MatchArm, parts, "Arm"@, 0, count)) == (Tally {
            arms: named_count(parts, "Arm"@, count),
            ..Tally::none()
        }),
    decreases count,
{
    if count > 0 {
        lemma_arm_signals(parts, (count - 1) as nat);
        if parts[count - 1].named("Arm"@) {
            let earlier = part_signals(SignalKind::MatchArm, parts, "Arm"@, 0, (count - 1) as nat);
            let own = node_signal(SignalKind::MatchArm, parts[count - 1], 0);
            lemma_tallied_concat(earlier, seq![own]);
            lemma_tallied_one(own);
            assert(earlier.push(own) =~= earlier + seq![own]);
        }
    }
}

proof fn lemma_arm_count(node: SyntaxNode, front: nat, count: nat)
    requires
        "Arm"@ != "Attribute"@,
        attributes_first(node, front),
        front < node.children@.len(),
        count <= node.children@.len(),
        !node.children@[front as int].named("Arm"@),
        forall|index: int|
            front < index < node.children@.len() ==> (#[trigger] node.children@[index]).named(
                "Arm"@,
            ),
    ensures
        named_count(node.children@, "Arm"@, count) == if count <= front + 1 {
            0
        } else {
            (count - front - 1) as nat
        },
    decreases count,
{
    if count > 0 {
        lemma_arm_count(node, front, (count - 1) as nat);
        if count - 1 < front {
            assert(node.children@[count - 1].named("Attribute"@));
        } else if count - 1 > front {
            assert(node.children@[count - 1].named("Arm"@));
        }
    }
}

/// A `match` is one decision and has its arms, which stand one level further in
/// than what is matched.
pub proof fn a_match_is_one_decision_with_arms(
    node: SyntaxNode,
    front: nat,
    whole: Metrics,
    parts: Seq<Metrics>,
)
    requires
        node.named("ExprMatch"@),
        attributes_first(node, front),
        front < node.children@.len(),
        !node.children@[front as int].named("Arm"@),
        forall|index: int|
            front < index < node.children@.len() ==> (#[trigger] node.children@[index]).named(
                "Arm"@,
            ),
        measured(Dialect::Rust, node, whole),
        parts_measured(Dialect::Rust, node, front, parts),
    ensures
        made_of(
            whole,
            (Tally { branches: 1, depth: 1, arms: (parts.len() - 1) as nat, ..Tally::none() }),
            parts,
            |index: int|
                if index == 0 {
                    0
                } else {
                    1
                },
        ),
{
    lemma_rust_kinds();
    let children = node.children@;
    let own = Tally { branches: 1, depth: 1, arms: (parts.len() - 1) as nat, ..Tally::none() };
    lemma_attributes(node, front, children.len());
    lemma_arm_count(node, front, children.len());
    lemma_arm_signals(children, children.len());
    let decision = node_signal(SignalKind::Branch, node, 0);
    lemma_tallied_one(decision);
    lemma_tallied_concat(
        seq![decision],
        part_signals(SignalKind::MatchArm, children, "Arm"@, 0, children.len()),
    );
    lemma_branching(
        node,
        front,
        whole,
        own,
        parts,
        |index: int|
            if index == 0 {
                0
            } else {
                1
            },
    );
}

/// A loop is one decision and one loop. Its body stands one level further in;
/// what it goes over, and its condition, do not.
pub proof fn a_loop_is_one_decision(
    node: SyntaxNode,
    front: nat,
    whole: Metrics,
    parts: Seq<Metrics>,
)
    requires
        node.named("ExprLoop"@) || node.named("ExprForLoop"@) || node.named("ExprWhile"@),
        attributes_first(node, front),
        measured(Dialect::Rust, node, whole),
        parts_measured(Dialect::Rust, node, front, parts),
        parts.len() == if node.named("ExprLoop"@) {
            1nat
        } else if node.named("ExprForLoop"@) {
            3
        } else {
            2
        },
    ensures
        made_of(
            whole,
            (Tally { branches: 1, depth: 1, loops: 1, ..Tally::none() }),
            parts,
            |index: int|
                if index == parts.len() - 1 {
                    1
                } else {
                    0
                },
        ),
{
    lemma_rust_kinds();
    lemma_attributes(node, front, node.children@.len());
    lemma_tallied_two(
        node_signal(SignalKind::Branch, node, 0),
        node_signal(SignalKind::Loop, node, 0),
    );
    lemma_branching(
        node,
        front,
        whole,
        Tally { branches: 1, depth: 1, loops: 1, ..Tally::none() },
        parts,
        |index: int|
            if index == parts.len() - 1 {
                1
            } else {
                0
            },
    );
}

/// A `let` with an `else` is a statement and one decision. Its `else` stands one
/// level further in than its pattern and its value.
pub proof fn a_let_else_is_one_decision(
    node: SyntaxNode,
    front: nat,
    whole: Metrics,
    parts: Seq<Metrics>,
)
    requires
        node.named("StmtLocal"@),
        attributes_first(node, front),
        measured(Dialect::Rust, node, whole),
        parts_measured(Dialect::Rust, node, front, parts),
        parts.len() == 3,
    ensures
        made_of(
            whole,
            (Tally { statements: 1, branches: 1, depth: 1, ..Tally::none() }),
            parts,
            |index: int|
                if index == 2 {
                    1
                } else {
                    0
                },
        ),
{
    lemma_rust_kinds();
    lemma_attributes(node, front, node.children@.len());
    lemma_tallied_two(
        node_signal(SignalKind::Statement, node, 0),
        node_signal(SignalKind::Branch, node, 0),
    );
    lemma_branching(
        node,
        front,
        whole,
        Tally { statements: 1, branches: 1, depth: 1, ..Tally::none() },
        parts,
        |index: int|
            if index == 2 {
                1
            } else {
                0
            },
    );
}

/// An arm with a guard is one decision at the level of the arm; one without is
/// none. Nothing of it stands further in.
pub proof fn a_guard_is_one_decision(
    node: SyntaxNode,
    front: nat,
    whole: Metrics,
    parts: Seq<Metrics>,
)
    requires
        node.named("Arm"@),
        attributes_first(node, front),
        measured(Dialect::Rust, node, whole),
        parts_measured(Dialect::Rust, node, 0, parts),
        parts.len() == front + 2 || parts.len() == front + 3,
    ensures
        made_of(
            whole,
            (Tally {
                guards: if parts.len() == front + 3 {
                    1
                } else {
                    0
                },
                ..Tally::none()
            }),
            parts,
            level(),
        ),
{
    lemma_rust_kinds();
    lemma_attributes(node, front, node.children@.len());
    let guard = node_signal(SignalKind::Guard, node, 0);
    lemma_tallied_one(guard);
    let own = Tally {
        guards: if parts.len() == front + 3 {
            1
        } else {
            0
        },
        ..Tally::none()
    };
    lemma_flat(node, whole, own, parts);
}

/// A binary operation is a Boolean operator where it may stop at its left side,
/// and else one operation, with a mutation where it assigns.
pub proof fn a_binary_operation_counts_by_its_operator(
    node: SyntaxNode,
    whole: Metrics,
    parts: Seq<Metrics>,
)
    requires
        node.named("ExprBinary"@),
        measured(Dialect::Rust, node, whole),
        parts_measured(Dialect::Rust, node, 0, parts),
    ensures
        ({
            let sign = operator(node);
            let none = Tally::none();
            &&& sign == "&&"@ || sign == "||"@ ==> made_of(
                whole,
                Tally { operators: 1, ..none },
                parts,
                level(),
            )
            &&& sign == "+"@ || sign == "-"@ || sign == "*"@ || sign == "/"@ || sign == "%"@
                || sign == "^"@ || sign == "&"@ || sign == "|"@ || sign == "<<"@ || sign == ">>"@
                || sign == "=="@ || sign == "<"@ || sign == "<="@ || sign == "!="@ || sign
                == ">="@ || sign == ">"@ ==> made_of(
                whole,
                Tally { operations: 1, ..none },
                parts,
                level(),
            )
            &&& sign == "+="@ || sign == "-="@ || sign == "*="@ || sign == "/="@ || sign == "%="@
                || sign == "^="@ || sign == "&="@ || sign == "|="@ || sign == "<<="@ || sign
                == ">>="@ ==> made_of(
                whole,
                Tally { operations: 1, mutations: 1, ..none },
                parts,
                level(),
            )
        }),
{
    lemma_rust_kinds();
    lemma_operators(operator(node));
    let none = Tally::none();
    lemma_tallied_one(node_signal(SignalKind::BooleanOperator, node, 0));
    lemma_tallied_one(node_signal(SignalKind::Operation, node, 0));
    lemma_tallied_two(
        node_signal(SignalKind::Operation, node, 0),
        node_signal(SignalKind::Mutation, node, 0),
    );
    let own = tallied(rust_own(node, 0));
    lemma_flat(node, whole, own, parts);
}

proof fn lemma_operators(sign: Seq<char>)
    ensures
        sign == "&&"@ || sign == "||"@ ==> crate::rust_syntax::short_circuit(sign),
        sign == "+="@ || sign == "-="@ || sign == "*="@ || sign == "/="@ || sign == "%="@ || sign
            == "^="@ || sign == "&="@ || sign == "|="@ || sign == "<<="@ || sign == ">>="@
            ==> !crate::rust_syntax::short_circuit(sign)
            && crate::rust_syntax::compound_assignment(sign),
        sign == "+"@ || sign == "-"@ || sign == "*"@ || sign == "/"@ || sign == "%"@ || sign
            == "^"@ || sign == "&"@ || sign == "|"@ || sign == "<<"@ || sign == ">>"@ || sign
            == "=="@ || sign == "<"@ || sign == "<="@ || sign == "!="@ || sign == ">="@ || sign
            == ">"@ ==> !crate::rust_syntax::short_circuit(sign)
            && !crate::rust_syntax::compound_assignment(sign),
{
    reveal_strlit("&&");
    reveal_strlit("||");
    reveal_strlit("+=");
    reveal_strlit("-=");
    reveal_strlit("*=");
    reveal_strlit("/=");
    reveal_strlit("%=");
    reveal_strlit("^=");
    reveal_strlit("&=");
    reveal_strlit("|=");
    reveal_strlit("<<=");
    reveal_strlit(">>=");
    reveal_strlit("+");
    reveal_strlit("-");
    reveal_strlit("*");
    reveal_strlit("/");
    reveal_strlit("%");
    reveal_strlit("^");
    reveal_strlit("&");
    reveal_strlit("|");
    reveal_strlit("<<");
    reveal_strlit(">>");
    reveal_strlit("==");
    reveal_strlit("<");
    reveal_strlit("<=");
    reveal_strlit("!=");
    reveal_strlit(">=");
    reveal_strlit(">");
    assert("+="@[0] != "&&"@[0]);
    assert("+="@[0] != "||"@[0]);
    assert("-="@[0] != "&&"@[0]);
    assert("-="@[0] != "||"@[0]);
    assert("*="@[0] != "&&"@[0]);
    assert("*="@[0] != "||"@[0]);
    assert("/="@[0] != "&&"@[0]);
    assert("/="@[0] != "||"@[0]);
    assert("%="@[0] != "&&"@[0]);
    assert("%="@[0] != "||"@[0]);
    assert("^="@[0] != "&&"@[0]);
    assert("^="@[0] != "||"@[0]);
    assert("&="@[1] != "&&"@[1]);
    assert("&="@[0] != "||"@[0]);
    assert("|="@[0] != "&&"@[0]);
    assert("|="@[1] != "||"@[1]);
    assert("<<="@.len() != "&&"@.len());
    assert("<<="@.len() != "||"@.len());
    assert(">>="@.len() != "&&"@.len());
    assert(">>="@.len() != "||"@.len());
    assert("+"@.len() != "&&"@.len());
    assert("+"@.len() != "||"@.len());
    assert("-"@.len() != "&&"@.len());
    assert("-"@.len() != "||"@.len());
    assert("*"@.len() != "&&"@.len());
    assert("*"@.len() != "||"@.len());
    assert("/"@.len() != "&&"@.len());
    assert("/"@.len() != "||"@.len());
    assert("%"@.len() != "&&"@.len());
    assert("%"@.len() != "||"@.len());
    assert("^"@.len() != "&&"@.len());
    assert("^"@.len() != "||"@.len());
    assert("&"@.len() != "&&"@.len());
    assert("&"@.len() != "||"@.len());
    assert("|"@.len() != "&&"@.len());
    assert("|"@.len() != "||"@.len());
    assert("<<"@[0] != "&&"@[0]);
    assert("<<"@[0] != "||"@[0]);
    assert(">>"@[0] != "&&"@[0]);
    assert(">>"@[0] != "||"@[0]);
    assert("=="@[0] != "&&"@[0]);
    assert("=="@[0] != "||"@[0]);
    assert("<"@.len() != "&&"@.len());
    assert("<"@.len() != "||"@.len());
    assert("<="@[0] != "&&"@[0]);
    assert("<="@[0] != "||"@[0]);
    assert("!="@[0] != "&&"@[0]);
    assert("!="@[0] != "||"@[0]);
    assert(">="@[0] != "&&"@[0]);
    assert(">="@[0] != "||"@[0]);
    assert(">"@.len() != "&&"@.len());
    assert(">"@.len() != "||"@.len());
    assert("<<"@[0] != "+="@[0]);
    assert("<<"@[0] != "-="@[0]);
    assert("<<"@[0] != "*="@[0]);
    assert("<<"@[0] != "/="@[0]);
    assert("<<"@[0] != "%="@[0]);
    assert("<<"@[0] != "^="@[0]);
    assert("<<"@[0] != "&="@[0]);
    assert("<<"@[0] != "|="@[0]);
    assert(">>"@[0] != "+="@[0]);
    assert(">>"@[0] != "-="@[0]);
    assert(">>"@[0] != "*="@[0]);
    assert(">>"@[0] != "/="@[0]);
    assert(">>"@[0] != "%="@[0]);
    assert(">>"@[0] != "^="@[0]);
    assert(">>"@[0] != "&="@[0]);
    assert(">>"@[0] != "|="@[0]);
    assert("=="@[0] != "+="@[0]);
    assert("=="@[0] != "-="@[0]);
    assert("=="@[0] != "*="@[0]);
    assert("=="@[0] != "/="@[0]);
    assert("=="@[0] != "%="@[0]);
    assert("=="@[0] != "^="@[0]);
    assert("=="@[0] != "&="@[0]);
    assert("=="@[0] != "|="@[0]);
    assert("<="@[0] != "+="@[0]);
    assert("<="@[0] != "-="@[0]);
    assert("<="@[0] != "*="@[0]);
    assert("<="@[0] != "/="@[0]);
    assert("<="@[0] != "%="@[0]);
    assert("<="@[0] != "^="@[0]);
    assert("<="@[0] != "&="@[0]);
    assert("<="@[0] != "|="@[0]);
    assert("!="@[0] != "+="@[0]);
    assert("!="@[0] != "-="@[0]);
    assert("!="@[0] != "*="@[0]);
    assert("!="@[0] != "/="@[0]);
    assert("!="@[0] != "%="@[0]);
    assert("!="@[0] != "^="@[0]);
    assert("!="@[0] != "&="@[0]);
    assert("!="@[0] != "|="@[0]);
    assert(">="@[0] != "+="@[0]);
    assert(">="@[0] != "-="@[0]);
    assert(">="@[0] != "*="@[0]);
    assert(">="@[0] != "/="@[0]);
    assert(">="@[0] != "%="@[0]);
    assert(">="@[0] != "^="@[0]);
    assert(">="@[0] != "&="@[0]);
    assert(">="@[0] != "|="@[0]);
    assert("&&"@.len() == 2 && "||"@.len() == 2 && "+="@.len() == 2 && "-="@.len() == 2 && "*="@.len() == 2 && "/="@.len() == 2 && "%="@.len() == 2 && "^="@.len() == 2 && "&="@.len() == 2 && "|="@.len() == 2 && "<<="@.len() == 3 && ">>="@.len() == 3 && "+"@.len() == 1 && "-"@.len() == 1 && "*"@.len() == 1 && "/"@.len() == 1 && "%"@.len() == 1 && "^"@.len() == 1 && "&"@.len() == 1 && "|"@.len() == 1 && "<<"@.len() == 2 && ">>"@.len() == 2 && "=="@.len() == 2 && "<"@.len() == 1 && "<="@.len() == 2 && "!="@.len() == 2 && ">="@.len() == 2 && ">"@.len() == 1);
}

/// What any other construct that its parts are looked into adds itself, by its
/// kind. Nothing of it stands further in.
pub proof fn other_constructs_count_by_their_kind(
    node: SyntaxNode,
    whole: Metrics,
    parts: Seq<Metrics>,
)
    requires
        measured(Dialect::Rust, node, whole),
        parts_measured(Dialect::Rust, node, 0, parts),
    ensures
        node.named("ExprUnary"@) || node.named("ExprIndex"@) || node.named("ExprCast"@)
            ==> made_of(whole, (Tally { operations: 1, ..Tally::none() }), parts, level()),
        node.named("ExprAssign"@) ==> made_of(
            whole,
            (Tally { operations: 1, mutations: 1, ..Tally::none() }),
            parts,
            level(),
        ),
        node.named("ExprReference"@) || node.named("PatIdent"@) ==> made_of(
            whole,
            (Tally {
                mutations: if node.flag {
                    1
                } else {
                    0
                },
                ..Tally::none()
            }),
            parts,
            level(),
        ),
        node.named("ExprReturn"@) ==> made_of(
            whole,
            (Tally { returns: 1, ..Tally::none() }),
            parts,
            level(),
        ),
        node.named("ExprUnsafe"@) ==> made_of(
            whole,
            (Tally { unsafe_blocks: 1, ..Tally::none() }),
            parts,
            level(),
        ),
        node.named("ExprMacro"@) || node.named("PatMacro"@) ==> made_of(
            whole,
            (Tally { macros: 1, ..Tally::none() }),
            parts,
            level(),
        ),
        node.named("ExprCall"@) || node.named("ExprMethodCall"@) ==> made_of(
            whole,
            (Tally { calls: 1, ..Tally::none() }),
            parts,
            level(),
        ),
        node.named("StmtExpr"@) ==> made_of(
            whole,
            (Tally { statements: 1, ..Tally::none() }),
            parts,
            level(),
        ),
        node.named("StmtMacro"@) ==> made_of(
            whole,
            (Tally { statements: 1, macros: 1, ..Tally::none() }),
            parts,
            level(),
        ),
        node.named("StmtLocal"@) && node.children@.len() != attribute_count(node) + 3 ==> made_of(
            whole,
            (Tally { statements: 1, ..Tally::none() }),
            parts,
            level(),
        ),
{
    lemma_rust_kinds();
    lemma_tallied_one(node_signal(SignalKind::Operation, node, 0));
    lemma_tallied_one(node_signal(SignalKind::Mutation, node, 0));
    lemma_tallied_one(node_signal(SignalKind::Return, node, 0));
    lemma_tallied_one(node_signal(SignalKind::UnsafeBlock, node, 0));
    lemma_tallied_one(node_signal(SignalKind::MacroCall, node, 0));
    lemma_tallied_one(node_signal(SignalKind::CallSite, node, 0));
    lemma_tallied_one(node_signal(SignalKind::Statement, node, 0));
    lemma_tallied_two(
        node_signal(SignalKind::Operation, node, 0),
        node_signal(SignalKind::Mutation, node, 0),
    );
    lemma_tallied_two(
        node_signal(SignalKind::Statement, node, 0),
        node_signal(SignalKind::MacroCall, node, 0),
    );
    let own = tallied(rust_own(node, 0));
    if node.named("ExprUnary"@) || node.named("ExprIndex"@) || node.named("ExprCast"@)
        || node.named("ExprAssign"@) || node.named("ExprReference"@) || node.named("PatIdent"@)
        || node.named("ExprReturn"@) || node.named("ExprUnsafe"@) || node.named("ExprMacro"@)
        || node.named("PatMacro"@) || node.named("ExprCall"@) || node.named("ExprMethodCall"@)
        || node.named("StmtExpr"@) || node.named("StmtMacro"@) || (node.named("StmtLocal"@)
        && node.children@.len() != attribute_count(node) + 3) {
        lemma_flat(node, whole, own, parts);
    }
}

/// Whether the name of a node's kind says that the node counts for anything.
pub open spec fn counting_kind(kind: Seq<char>) -> bool {
    ||| kind == "ExprIf"@
    ||| kind == "ExprMatch"@
    ||| kind == "ExprLoop"@
    ||| kind == "ExprForLoop"@
    ||| kind == "ExprWhile"@
    ||| kind == "Arm"@
    ||| kind == "ExprBinary"@
    ||| kind == "ExprUnary"@
    ||| kind == "ExprIndex"@
    ||| kind == "ExprCast"@
    ||| kind == "ExprAssign"@
    ||| kind == "ExprReference"@
    ||| kind == "PatIdent"@
    ||| kind == "ExprClosure"@
    ||| kind == "ExprReturn"@
    ||| kind == "ExprUnsafe"@
    ||| kind == "ExprMacro"@
    ||| kind == "PatMacro"@
    ||| kind == "ExprCall"@
    ||| kind == "ExprMethodCall"@
    ||| kind == "StmtExpr"@
    ||| kind == "StmtMacro"@
    ||| kind == "StmtItem"@
    ||| kind == "StmtLocal"@
}

/// All other nodes, such as blocks, add nothing to their parts.
pub proof fn other_nodes_add_nothing(node: SyntaxNode, whole: Metrics, parts: Seq<Metrics>)
    requires
        !counting_kind(node.kind@),
        measured(Dialect::Rust, node, whole),
        parts_measured(Dialect::Rust, node, 0, parts),
    ensures
        made_of(whole, Tally::none(), parts, level()),
{
    assert(rust_own(node, 0) =~= Seq::<Signal>::empty());
    lemma_flat(node, whole, Tally::none(), parts);
}

/// A closure counts as one where it stands, and a nested item as nothing: what is
/// in them belongs to callables of their own.
pub proof fn callables_within_keep_their_own(node: SyntaxNode, whole: Metrics)
    requires
        node.named("ExprClosure"@) || node.named("StmtItem"@),
        measured(Dialect::Rust, node, whole),
    ensures
        tally_of(whole) == (Tally {
            closures: if node.named("ExprClosure"@) {
                1
            } else {
                0
            },
            ..Tally::none()
        }),
{
    lemma_rust_kinds();
    let own = rust_own(node, 0);
    lemma_tallied_one(node_signal(SignalKind::Closure, node, 0));
    lemma_walk_tally(Dialect::Rust, node, 0, false);
    lemma_measured(
        whole,
        signals(Dialect::Rust, node, 0),
        whole.code_lines,
        whole.parameters,
        whole.explicit_parameters,
    );
}

/// A block within a loop that has a condition: each of its decisions is one deeper
/// than where the block stands by itself, so the nesting penalty grows by as many
/// as there are, and the loop adds one decision to them.
pub proof fn a_while_deepens_its_body(
    node: SyntaxNode,
    whole: Metrics,
    condition: Metrics,
    body: Metrics,
)
    requires
        node.named("ExprWhile"@),
        node.children@.len() == 2,
        !node.children@[0].named("Attribute"@),
        !node.children@[1].named("Attribute"@),
        measured(Dialect::Rust, node, whole),
        measured(Dialect::Rust, node.children@[0], condition),
        measured(Dialect::Rust, node.children@[1], body),
        condition.nesting_penalty + body.nesting_penalty + body.control_decisions < usize::MAX,
    ensures
        whole.nesting_penalty == condition.nesting_penalty + body.nesting_penalty
            + body.control_decisions,
        whole.control_decisions == condition.control_decisions + body.control_decisions + 1,
        body.max_depth > 0 ==> whole.max_depth >= body.max_depth + 1,
{
    let parts = seq![condition, body];
    lemma_rust_kinds();
    assert(attributes_first(node, 0));
    a_loop_is_one_decision(node, 0, whole, parts);
    let levels = |index: int|
        if index == parts.len() - 1 {
            1nat
        } else {
            0nat
        };
    reveal_with_fuel(gathered, 3);
    lemma_decisions(node, whole);
    lemma_decisions(node.children@[0], condition);
    lemma_decisions(node.children@[1], body);
    assert(0 * (tally_of(condition).branches + tally_of(condition).guards) == 0)
        by (nonlinear_arith);
}

proof fn lemma_decisions(node: SyntaxNode, metrics: Metrics)
    requires
        measured(Dialect::Rust, node, metrics),
    ensures
        metrics.branches <= metrics.control_decisions,
        metrics.nesting_penalty < usize::MAX && metrics.branches == 0 ==> metrics.max_depth == 0,
{
    lemma_measured(
        metrics,
        signals(Dialect::Rust, node, 0),
        metrics.code_lines,
        metrics.parameters,
        metrics.explicit_parameters,
    );
    crate::tallies::lemma_no_branch_no_depth(signals(Dialect::Rust, node, 0));
}

}
