//! What may be rewritten in Rust source without a change of its score.
use vstd::prelude::*;
use crate::model::{Metrics, Score};
use crate::node_signals::part_signals;
use crate::rust_syntax::{
    attribute_count, attributes_passed_over, operator, rust_closed_off, rust_own, rust_part_depth,
    rust_part_steps, rust_steps,
};
use crate::score::{component_sum, scores};
use crate::signals::{deeper, measures, nesting, signal_count, Signal, SignalKind};
use crate::syntax::{named_count, SyntaxNode};
use crate::walk::{signals, step_signals, Dialect, Step};

verus! {

/// What signals add to a score: how many there are of each kind that counts, and
/// the depths of the decisions.
pub struct Burden {
    pub branches: nat,
    pub guards: nat,
    pub operators: nat,
    pub operations: nat,
    pub calls: nat,
    pub arms: nat,
    pub nesting: nat,
}

impl Burden {
    /// No signals at all.
    pub open spec fn none() -> Burden {
        Burden {
            branches: 0,
            guards: 0,
            operators: 0,
            operations: 0,
            calls: 0,
            arms: 0,
            nesting: 0,
        }
    }

    /// Both together.
    pub open spec fn plus(self, other: Burden) -> Burden {
        Burden {
            branches: self.branches + other.branches,
            guards: self.guards + other.guards,
            operators: self.operators + other.operators,
            operations: self.operations + other.operations,
            calls: self.calls + other.calls,
            arms: self.arms + other.arms,
            nesting: self.nesting + other.nesting,
        }
    }
}

/// What signals add to a score.
pub open spec fn burden(list: Seq<Signal>) -> Burden {
    Burden {
        branches: signal_count(list, SignalKind::Branch, list.len()),
        guards: signal_count(list, SignalKind::Guard, list.len()),
        operators: signal_count(list, SignalKind::BooleanOperator, list.len()),
        operations: signal_count(list, SignalKind::Operation, list.len()),
        calls: signal_count(list, SignalKind::CallSite, list.len()),
        arms: signal_count(list, SignalKind::MatchArm, list.len()),
        nesting: nesting(list, list.len()),
    }
}

/// What a tree of Rust source adds to a score at a depth.
pub open spec fn cost(node: SyntaxNode, depth: usize) -> Burden {
    burden(signals(Dialect::Rust, node, depth))
}

proof fn lemma_count_concat(left: Seq<Signal>, right: Seq<Signal>, kind: SignalKind, count: nat)
    requires
        count <= right.len(),
    ensures
        signal_count(left + right, kind, left.len() + count) == signal_count(
            left,
            kind,
            left.len(),
        ) + signal_count(right, kind, count),
        nesting(left + right, left.len() + count) == nesting(left, left.len()) + nesting(
            right,
            count,
        ),
    decreases count,
{
    if count == 0 {
        lemma_count_prefix(left, left + right, kind, left.len());
    } else {
        lemma_count_concat(left, right, kind, (count - 1) as nat);
        assert((left + right)[left.len() + count - 1] == right[count - 1]);
    }
}

proof fn lemma_count_prefix(left: Seq<Signal>, whole: Seq<Signal>, kind: SignalKind, count: nat)
    requires
        count <= left.len() <= whole.len(),
        forall|index: int| 0 <= index < left.len() ==> left[index] == whole[index],
    ensures
        signal_count(whole, kind, count) == signal_count(left, kind, count),
        nesting(whole, count) == nesting(left, count),
    decreases count,
{
    if count > 0 {
        lemma_count_prefix(left, whole, kind, (count - 1) as nat);
    }
}

proof fn lemma_burden_concat(left: Seq<Signal>, right: Seq<Signal>)
    ensures
        burden(left + right) == burden(left).plus(burden(right)),
{
    lemma_count_concat(left, right, SignalKind::Branch, right.len());
    lemma_count_concat(left, right, SignalKind::Guard, right.len());
    lemma_count_concat(left, right, SignalKind::BooleanOperator, right.len());
    lemma_count_concat(left, right, SignalKind::Operation, right.len());
    lemma_count_concat(left, right, SignalKind::CallSite, right.len());
    lemma_count_concat(left, right, SignalKind::MatchArm, right.len());
}

/// What a part of a node adds: nothing where a walk does not go there.
pub open spec fn part_cost(node: SyntaxNode, child: int, depth: usize) -> Burden {
    let part = node.children@[child];
    if attributes_passed_over(node) && part.named("Attribute"@) {
        Burden::none()
    } else {
        cost(part, rust_part_depth(node, child, depth))
    }
}

/// What the first `count` parts of a node add.
spec fn parts_cost(node: SyntaxNode, depth: usize, count: nat) -> Burden
    decreases count,
{
    if count == 0 {
        Burden::none()
    } else {
        parts_cost(node, depth, (count - 1) as nat).plus(part_cost(node, count - 1, depth))
    }
}

proof fn lemma_step_prefix(
    node: SyntaxNode,
    shorter: Seq<Step>,
    longer: Seq<Step>,
    count: nat,
)
    requires
        count <= shorter.len() <= longer.len(),
        forall|index: int| 0 <= index < shorter.len() ==> shorter[index] == longer[index],
    ensures
        step_signals(Dialect::Rust, node, longer, count) == step_signals(
            Dialect::Rust,
            node,
            shorter,
            count,
        ),
    decreases count,
{
    if count > 0 {
        lemma_step_prefix(node, shorter, longer, (count - 1) as nat);
    }
}

proof fn lemma_parts(node: SyntaxNode, depth: usize, count: nat)
    requires
        count <= node.children@.len(),
    ensures
        ({
            let list = rust_part_steps(node, depth, count);
            burden(step_signals(Dialect::Rust, node, list, list.len())) == parts_cost(
                node,
                depth,
                count,
            )
        }),
    decreases count,
{
    let list = rust_part_steps(node, depth, count);
    if count > 0 {
        lemma_parts(node, depth, (count - 1) as nat);
        let earlier = rust_part_steps(node, depth, (count - 1) as nat);
        assert(node.children.len() == node.children@.len());
        if !(attributes_passed_over(node) && node.children@[count - 1].named("Attribute"@)) {
            lemma_step_prefix(node, earlier, list, earlier.len());
            let before = step_signals(Dialect::Rust, node, earlier, earlier.len());
            let step = list[earlier.len() as int];
            assert(list.len() == earlier.len() + 1);
            assert(step.child == count - 1);
            let part = signals(Dialect::Rust, node.children@[count - 1], step.depth);
            assert(before + Seq::<Signal>::empty() =~= before);
            assert(step_signals(Dialect::Rust, node, list, list.len()) == before + part);
            lemma_burden_concat(before, part);
        }
    }
}

proof fn lemma_cost(node: SyntaxNode, depth: usize)
    ensures
        cost(node, depth) == if rust_closed_off(node) {
            burden(rust_own(node, depth))
        } else {
            burden(rust_own(node, depth)).plus(parts_cost(node, depth, node.children@.len()))
        },
{
    let list = rust_steps(node, depth);
    let own = rust_own(node, depth);
    lemma_burden_concat(own, step_signals(Dialect::Rust, node, list, list.len()));
    if !rust_closed_off(node) {
        lemma_parts(node, depth, node.children@.len());
    }
}

/// Signals that add the same leave the score and the operations the same.
pub proof fn equal_burdens_score_alike(
    first: Seq<Signal>,
    second: Seq<Signal>,
    first_metrics: Metrics,
    second_metrics: Metrics,
    first_score: Score,
    second_score: Score,
    first_lines: usize,
    second_lines: usize,
    parameters: usize,
    explicit_parameters: usize,
)
    requires
        burden(first) == burden(second),
        measures(first_metrics, first, first_lines, parameters, explicit_parameters),
        measures(second_metrics, second, second_lines, parameters, explicit_parameters),
        scores(first_score, first_metrics),
        scores(second_score, second_metrics),
    ensures
        first_score.value == second_score.value,
        first_metrics.expression_operations == second_metrics.expression_operations,
{
    assert(component_sum(first_score) == component_sum(second_score));
}

/// Whether two nodes are of one kind, with the same operator, and have or lack
/// the same.
pub open spec fn same_node(left: SyntaxNode, right: SyntaxNode) -> bool {
    left.kind@ == right.kind@ && operator(left) == operator(right) && left.flag == right.flag
}

/// Whether a node takes one part as it takes another at a place: as an attribute,
/// as an arm, or as an `else` that goes on with an `if`.
pub open spec fn taken_alike(
    node: SyntaxNode,
    place: int,
    left: SyntaxNode,
    right: SyntaxNode,
) -> bool {
    &&& left.named("Attribute"@) == right.named("Attribute"@)
    &&& left.named("Arm"@) == right.named("Arm"@)
    &&& node.named("ExprIf"@) && place == attribute_count(node) + 2 ==> left.named("ExprIf"@)
        == right.named("ExprIf"@)
}

/// The part of a tree that a path of places leads to.
pub open spec fn part_at(node: SyntaxNode, path: Seq<int>) -> SyntaxNode
    decreases path.len(),
{
    if path.len() == 0 {
        node
    } else {
        part_at(node.children@[path[0]], path.skip(1))
    }
}

/// Whether two trees are the same but for the part that a path leads to.
pub open spec fn same_but_at(before: SyntaxNode, after: SyntaxNode, path: Seq<int>) -> bool
    decreases path.len(),
{
    path.len() == 0 || {
        let place = path[0];
        &&& same_node(before, after)
        &&& before.children@.len() == after.children@.len()
        &&& 0 <= place < before.children@.len()
        &&& forall|other: int|
            0 <= other < before.children@.len() && other != place
                ==> #[trigger] before.children@[other] == after.children@[other]
        &&& taken_alike(before, place, before.children@[place], after.children@[place])
        &&& same_but_at(before.children@[place], after.children@[place], path.skip(1))
    }
}

/// Whether a walk for signals comes to the part that a path leads to.
pub open spec fn comes_to(node: SyntaxNode, path: Seq<int>) -> bool
    decreases path.len(),
{
    path.len() == 0 || {
        let part = node.children@[path[0]];
        &&& !rust_closed_off(node)
        &&& !(attributes_passed_over(node) && part.named("Attribute"@))
        &&& comes_to(part, path.skip(1))
    }
}

/// The depth at which a walk comes to the part that a path leads to.
pub open spec fn depth_at(node: SyntaxNode, path: Seq<int>, depth: usize) -> usize
    decreases path.len(),
{
    if path.len() == 0 {
        depth
    } else {
        depth_at(
            node.children@[path[0]],
            path.skip(1),
            rust_part_depth(node, path[0], depth),
        )
    }
}

proof fn lemma_same_count(
    before: Seq<SyntaxNode>,
    after: Seq<SyntaxNode>,
    kind: Seq<char>,
    count: nat,
)
    requires
        count <= before.len() == after.len(),
        forall|index: int|
            0 <= index < before.len() ==> (#[trigger] before[index]).named(kind)
                == after[index].named(kind),
    ensures
        named_count(before, kind, count) == named_count(after, kind, count),
    decreases count,
{
    if count > 0 {
        lemma_same_count(before, after, kind, (count - 1) as nat);
        assert(before[count - 1].named(kind) == after[count - 1].named(kind));
    }
}

proof fn lemma_arms(parts: Seq<SyntaxNode>, depth: usize, count: nat)
    requires
        count <= parts.len(),
    ensures
        burden(part_signals(SignalKind::MatchArm, parts, "Arm"@, depth, count)) == (Burden {
            arms: named_count(parts, "Arm"@, count),
            ..Burden::none()
        }),
    decreases count,
{
    if count > 0 {
        lemma_arms(parts, depth, (count - 1) as nat);
        let earlier = part_signals(SignalKind::MatchArm, parts, "Arm"@, depth, (count - 1) as nat);
        if parts[count - 1].named("Arm"@) {
            let own = seq![
                crate::node_signals::node_signal(SignalKind::MatchArm, parts[count - 1], depth),
            ];
            lemma_burden_concat(earlier, own);
            lemma_single(own[0]);
            assert(earlier.push(own[0]) =~= earlier + own);
        }
    }
}

/// What one signal adds.
spec fn single(kind: SignalKind, depth: usize) -> Burden {
    let one = |wanted: SignalKind|
        if kind == wanted {
            1nat
        } else {
            0nat
        };
    Burden {
        branches: one(SignalKind::Branch),
        guards: one(SignalKind::Guard),
        operators: one(SignalKind::BooleanOperator),
        operations: one(SignalKind::Operation),
        calls: one(SignalKind::CallSite),
        arms: one(SignalKind::MatchArm),
        nesting: if kind == SignalKind::Branch || kind == SignalKind::Guard {
            depth as nat
        } else {
            0
        },
    }
}

proof fn lemma_single(signal: Signal)
    ensures
        burden(seq![signal]) == single(signal.kind, signal.depth),
{
    reveal_with_fuel(signal_count, 2);
    reveal_with_fuel(nesting, 2);
}

/// Whether signals are the same but for where they come from.
spec fn same_signals(left: Seq<Signal>, right: Seq<Signal>) -> bool {
    &&& left.len() == right.len()
    &&& forall|index: int|
        0 <= index < left.len() ==> (#[trigger] left[index]).kind == right[index].kind
            && left[index].depth == right[index].depth
}

proof fn lemma_same_signals_count(
    left: Seq<Signal>,
    right: Seq<Signal>,
    kind: SignalKind,
    count: nat,
)
    requires
        same_signals(left, right),
        count <= left.len(),
    ensures
        signal_count(left, kind, count) == signal_count(right, kind, count),
        nesting(left, count) == nesting(right, count),
    decreases count,
{
    if count > 0 {
        lemma_same_signals_count(left, right, kind, (count - 1) as nat);
        assert(left[count - 1].kind == right[count - 1].kind);
    }
}

proof fn lemma_same_burden(left: Seq<Signal>, right: Seq<Signal>)
    requires
        same_signals(left, right),
    ensures
        burden(left) == burden(right),
{
    lemma_same_signals_count(left, right, SignalKind::Branch, left.len());
    lemma_same_signals_count(left, right, SignalKind::Guard, left.len());
    lemma_same_signals_count(left, right, SignalKind::BooleanOperator, left.len());
    lemma_same_signals_count(left, right, SignalKind::Operation, left.len());
    lemma_same_signals_count(left, right, SignalKind::CallSite, left.len());
    lemma_same_signals_count(left, right, SignalKind::MatchArm, left.len());
}

proof fn lemma_own(before: SyntaxNode, after: SyntaxNode, depth: usize)
    requires
        same_node(before, after),
        before.children@.len() - attribute_count(before) == after.children@.len()
            - attribute_count(after),
        named_count(before.children@, "Arm"@, before.children@.len()) == named_count(
            after.children@,
            "Arm"@,
            after.children@.len(),
        ),
    ensures
        burden(rust_own(before, depth)) == burden(rust_own(after, depth)),
{
    let left = rust_own(before, depth);
    let right = rust_own(after, depth);
    if before.named("ExprMatch"@) && !before.named("ExprIf"@) {
        let count = before.children@.len();
        let other = after.children@.len();
        let decision = |node: SyntaxNode|
            seq![crate::node_signals::node_signal(SignalKind::Branch, node, depth)];
        let arms = |node: SyntaxNode|
            part_signals(
                SignalKind::MatchArm,
                node.children@,
                "Arm"@,
                depth,
                node.children@.len(),
            );
        lemma_arms(before.children@, depth, count);
        lemma_arms(after.children@, depth, other);
        lemma_burden_concat(decision(before), arms(before));
        lemma_burden_concat(decision(after), arms(after));
        lemma_same_burden(decision(before), decision(after));
    } else {
        assert(same_signals(left, right));
        lemma_same_burden(left, right);
    }
}

/// What nodes add at one depth.
spec fn sum_cost(nodes: Seq<SyntaxNode>, depth: usize) -> Burden
    decreases nodes.len(),
{
    if nodes.len() == 0 {
        Burden::none()
    } else {
        sum_cost(nodes.drop_last(), depth).plus(cost(nodes.last(), depth))
    }
}

proof fn lemma_parts_swapped(
    before: SyntaxNode,
    after: SyntaxNode,
    depth: usize,
    place: int,
    count: nat,
)
    requires
        0 <= place < before.children@.len() == after.children@.len(),
        count <= before.children@.len(),
        forall|other: int|
            0 <= other < before.children@.len() && other != place ==> #[trigger] part_cost(
                before,
                other,
                depth,
            ) == part_cost(after, other, depth),
    ensures
        count <= place ==> parts_cost(before, depth, count) == parts_cost(after, depth, count),
        count > place ==> parts_cost(after, depth, count).plus(part_cost(before, place, depth))
            == parts_cost(before, depth, count).plus(part_cost(after, place, depth)),
    decreases count,
{
    if count > 0 {
        lemma_parts_swapped(before, after, depth, place, (count - 1) as nat);
        if count - 1 != place {
            assert(part_cost(before, count - 1, depth) == part_cost(after, count - 1, depth));
        }
    }
}

/// Where trees are the same but for one part, what they add differs as much as
/// what that part adds where a walk comes to it, and not at all where none does.
pub proof fn a_part_adds_what_it_adds_itself(
    before: SyntaxNode,
    after: SyntaxNode,
    path: Seq<int>,
    depth: usize,
)
    requires
        same_but_at(before, after, path),
    ensures
        comes_to(before, path) == comes_to(after, path) || path.len() == 0,
        comes_to(before, path) ==> cost(after, depth).plus(
            cost(part_at(before, path), depth_at(before, path, depth)),
        ) == cost(before, depth).plus(
            cost(part_at(after, path), depth_at(before, path, depth)),
        ),
        !comes_to(before, path) ==> cost(after, depth) == cost(before, depth),
    decreases path.len(),
{
    if path.len() > 0 {
        let place = path[0];
        let left = before.children@;
        let right = after.children@;
        assert forall|index: int, kind: Seq<char>|
            0 <= index < left.len() && (kind == "Attribute"@ || kind == "Arm"@) implies (
        #[trigger] left[index].named(kind)) == right[index].named(kind) by {
            if index != place {
                assert(left[index] == right[index]);
            }
        }
        lemma_same_count(left, right, "Attribute"@, left.len());
        lemma_same_count(left, right, "Arm"@, left.len());
        lemma_own(before, after, depth);
        lemma_cost(before, depth);
        lemma_cost(after, depth);
        assert(attributes_passed_over(before) == attributes_passed_over(after));
        assert(rust_closed_off(before) == rust_closed_off(after));
        assert forall|other: int| 0 <= other < left.len() && other != place implies #[trigger]
            part_cost(before, other, depth) == part_cost(after, other, depth) by {
            assert(left[other] == right[other]);
        }
        lemma_parts_swapped(before, after, depth, place, left.len());
        let inner = rust_part_depth(before, place, depth);
        assert(inner == rust_part_depth(after, place, depth));
        a_part_adds_what_it_adds_itself(left[place], right[place], path.skip(1), inner);
    }
}

/// Whether one expression is another in parentheses.
pub open spec fn parenthesized(plain: SyntaxNode, wrapped: SyntaxNode) -> bool {
    wrapped.named("ExprParen"@) && wrapped.children@ == seq![plain]
}

proof fn lemma_paren_kind()
    ensures
        "ExprParen"@ != "ExprIf"@,
        "ExprParen"@ != "ExprMatch"@,
        "ExprParen"@ != "ExprLoop"@,
        "ExprParen"@ != "ExprForLoop"@,
        "ExprParen"@ != "ExprWhile"@,
        "ExprParen"@ != "Arm"@,
        "ExprParen"@ != "ExprBinary"@,
        "ExprParen"@ != "ExprUnary"@,
        "ExprParen"@ != "ExprIndex"@,
        "ExprParen"@ != "ExprCast"@,
        "ExprParen"@ != "ExprAssign"@,
        "ExprParen"@ != "ExprReference"@,
        "ExprParen"@ != "PatIdent"@,
        "ExprParen"@ != "ExprClosure"@,
        "ExprParen"@ != "ExprReturn"@,
        "ExprParen"@ != "ExprUnsafe"@,
        "ExprParen"@ != "ExprMacro"@,
        "ExprParen"@ != "PatMacro"@,
        "ExprParen"@ != "ExprCall"@,
        "ExprParen"@ != "ExprMethodCall"@,
        "ExprParen"@ != "StmtExpr"@,
        "ExprParen"@ != "StmtMacro"@,
        "ExprParen"@ != "StmtItem"@,
        "ExprParen"@ != "StmtLocal"@,
        "ExprParen"@ != "Attribute"@,
{
    reveal_strlit("ExprParen");
    reveal_strlit("ExprIf");
    reveal_strlit("ExprMatch");
    reveal_strlit("ExprLoop");
    reveal_strlit("ExprForLoop");
    reveal_strlit("ExprWhile");
    reveal_strlit("Arm");
    reveal_strlit("ExprBinary");
    reveal_strlit("ExprUnary");
    reveal_strlit("ExprIndex");
    reveal_strlit("ExprCast");
    reveal_strlit("ExprAssign");
    reveal_strlit("ExprReference");
    reveal_strlit("PatIdent");
    reveal_strlit("ExprClosure");
    reveal_strlit("ExprReturn");
    reveal_strlit("ExprUnsafe");
    reveal_strlit("ExprMacro");
    reveal_strlit("PatMacro");
    reveal_strlit("ExprCall");
    reveal_strlit("ExprMethodCall");
    reveal_strlit("StmtExpr");
    reveal_strlit("StmtMacro");
    reveal_strlit("StmtItem");
    reveal_strlit("StmtLocal");
    reveal_strlit("Attribute");
    assert("ExprParen"@.len() != "ExprIf"@.len());
    assert("ExprParen"@[4] == 'P' && "ExprMatch"@[4] == 'M');
    assert("ExprParen"@.len() != "ExprLoop"@.len());
    assert("ExprParen"@.len() != "ExprForLoop"@.len());
    assert("ExprParen"@[4] == 'P' && "ExprWhile"@[4] == 'W');
    assert("ExprParen"@.len() != "Arm"@.len());
    assert("ExprParen"@.len() != "ExprBinary"@.len());
    assert("ExprParen"@[4] == 'P' && "ExprUnary"@[4] == 'U');
    assert("ExprParen"@[4] == 'P' && "ExprIndex"@[4] == 'I');
    assert("ExprParen"@.len() != "ExprCast"@.len());
    assert("ExprParen"@.len() != "ExprAssign"@.len());
    assert("ExprParen"@.len() != "ExprReference"@.len());
    assert("ExprParen"@.len() != "PatIdent"@.len());
    assert("ExprParen"@.len() != "ExprClosure"@.len());
    assert("ExprParen"@.len() != "ExprReturn"@.len());
    assert("ExprParen"@.len() != "ExprUnsafe"@.len());
    assert("ExprParen"@[4] == 'P' && "ExprMacro"@[4] == 'M');
    assert("ExprParen"@.len() != "PatMacro"@.len());
    assert("ExprParen"@.len() != "ExprCall"@.len());
    assert("ExprParen"@.len() != "ExprMethodCall"@.len());
    assert("ExprParen"@.len() != "StmtExpr"@.len());
    assert("ExprParen"@[0] == 'E' && "StmtMacro"@[0] == 'S');
    assert("ExprParen"@.len() != "StmtItem"@.len());
    assert("ExprParen"@[0] == 'E' && "StmtLocal"@[0] == 'S');
    assert("ExprParen"@[0] == 'E' && "Attribute"@[0] == 'A');
}

/// Parentheses around an expression add nothing.
pub proof fn parentheses_add_nothing(plain: SyntaxNode, wrapped: SyntaxNode, depth: usize)
    requires
        parenthesized(plain, wrapped),
    ensures
        cost(wrapped, depth) == cost(plain, depth),
{
    lemma_paren_kind();
    lemma_cost(wrapped, depth);
    assert(rust_own(wrapped, depth) =~= Seq::<Signal>::empty());
    assert(!attributes_passed_over(wrapped));
    reveal_with_fuel(parts_cost, 2);
    assert(rust_part_depth(wrapped, 0, depth) == depth);
    assert(wrapped.children@[0] == plain);
}

proof fn lemma_sum_without(nodes: Seq<SyntaxNode>, depth: usize, index: int)
    requires
        0 <= index < nodes.len(),
    ensures
        sum_cost(nodes, depth) == sum_cost(nodes.remove(index), depth).plus(
            cost(nodes[index], depth),
        ),
    decreases nodes.len(),
{
    if index == nodes.len() - 1 {
        assert(nodes.remove(index) =~= nodes.drop_last());
    } else {
        lemma_sum_without(nodes.drop_last(), depth, index);
        assert(nodes.remove(index).drop_last() =~= nodes.drop_last().remove(index));
        assert(nodes.remove(index).last() == nodes.last());
    }
}

proof fn lemma_sum_permuted(left: Seq<SyntaxNode>, right: Seq<SyntaxNode>, depth: usize)
    requires
        left.to_multiset() =~= right.to_multiset(),
    ensures
        sum_cost(left, depth) == sum_cost(right, depth),
    decreases left.len(),
{
    broadcast use vstd::seq_lib::group_to_multiset_ensures;

    assert(left.len() == left.to_multiset().len());
    assert(right.len() == right.to_multiset().len());
    if left.len() > 0 {
        let item = left.last();
        assert(left.contains(item));
        assert(left.to_multiset().count(item) > 0);
        assert(right.to_multiset().count(item) > 0);
        assert(right.contains(item));
        let index = choose|index: int| 0 <= index < right.len() && right[index] == item;
        lemma_sum_without(right, depth, index);
        lemma_sum_without(left, depth, left.len() - 1);
        let shorter = left.remove(left.len() - 1);
        assert(shorter.to_multiset() =~= right.remove(index).to_multiset());
        lemma_sum_permuted(shorter, right.remove(index), depth);
    }
}

/// Whether two matches differ in the order of their arms alone. `front` is how
/// many parts stand before the arms.
pub open spec fn arms_reordered(before: SyntaxNode, after: SyntaxNode, front: nat) -> bool {
    &&& before.named("ExprMatch"@)
    &&& same_node(before, after)
    &&& front == attribute_count(before) + 1
    &&& front <= before.children@.len() == after.children@.len()
    &&& before.children@.take(front as int) == after.children@.take(front as int)
    &&& before.children@.skip(front as int).to_multiset() =~= after.children@.skip(
        front as int,
    ).to_multiset()
    &&& forall|index: int|
        front <= index < before.children@.len() ==> (#[trigger] before.children@[index]).named(
            "Arm"@,
        )
    &&& forall|index: int|
        front <= index < after.children@.len() ==> (#[trigger] after.children@[index]).named(
            "Arm"@,
        )
}

proof fn lemma_arm_kinds(left: Seq<SyntaxNode>, right: Seq<SyntaxNode>, front: nat, index: int)
    requires
        front <= left.len() == right.len(),
        left.take(front as int) == right.take(front as int),
        forall|other: int| front <= other < left.len() ==> (#[trigger] left[other]).named("Arm"@),
        forall|other: int|
            front <= other < right.len() ==> (#[trigger] right[other]).named("Arm"@),
        0 <= index < left.len(),
    ensures
        left[index].named("Arm"@) == right[index].named("Arm"@),
        left[index].named("Attribute"@) == right[index].named("Attribute"@),
        index < front ==> left[index] == right[index],
{
    if index < front {
        assert(left.take(front as int)[index] == left[index]);
        assert(right.take(front as int)[index] == right[index]);
    } else {
        assert(left[index].named("Arm"@) && right[index].named("Arm"@));
    }
}

proof fn lemma_match_parts(node: SyntaxNode, front: nat, depth: usize, count: nat)
    requires
        node.named("ExprMatch"@),
        "ExprMatch"@ != "ExprIf"@,
        "Arm"@ != "Attribute"@,
        front == attribute_count(node) + 1,
        front <= count <= node.children@.len(),
        forall|other: int|
            front <= other < node.children@.len() ==> (#[trigger] node.children@[other]).named(
                "Arm"@,
            ),
    ensures
        parts_cost(node, depth, count) == parts_cost(node, depth, front).plus(
            sum_cost(node.children@.subrange(front as int, count as int), deeper(depth)),
        ),
    decreases count,
{
    let arms = node.children@.subrange(front as int, count as int);
    if count > front {
        lemma_match_parts(node, front, depth, (count - 1) as nat);
        assert(arms.drop_last() =~= node.children@.subrange(front as int, count - 1));
        assert(arms.last() == node.children@[count - 1]);
        assert(node.children@[count - 1].named("Arm"@));
        assert(part_cost(node, count - 1, depth) == cost(arms.last(), deeper(depth)));
    } else {
        assert(arms.len() == 0);
    }
}

proof fn lemma_front_cost(
    before: SyntaxNode,
    after: SyntaxNode,
    front: nat,
    depth: usize,
    count: nat,
)
    requires
        same_node(before, after),
        before.named("ExprMatch"@),
        "ExprMatch"@ != "ExprIf"@,
        attribute_count(before) == attribute_count(after),
        count <= front <= before.children@.len() == after.children@.len(),
        before.children@.take(front as int) == after.children@.take(front as int),
    ensures
        parts_cost(before, depth, count) == parts_cost(after, depth, count),
    decreases count,
{
    if count > 0 {
        lemma_front_cost(before, after, front, depth, (count - 1) as nat);
        assert(before.children@.take(front as int)[count - 1] == before.children@[count - 1]);
        assert(after.children@.take(front as int)[count - 1] == after.children@[count - 1]);
    }
}

/// The order of the arms of a match adds nothing.
pub proof fn arm_order_adds_nothing(
    before: SyntaxNode,
    after: SyntaxNode,
    front: nat,
    depth: usize,
)
    requires
        arms_reordered(before, after, front),
    ensures
        cost(after, depth) == cost(before, depth),
{
    let left = before.children@;
    let right = after.children@;
    let count = left.len();
    reveal_strlit("ExprMatch");
    reveal_strlit("ExprIf");
    reveal_strlit("Arm");
    reveal_strlit("Attribute");
    assert("ExprMatch"@.len() != "ExprIf"@.len());
    assert("Arm"@.len() != "Attribute"@.len());
    assert forall|index: int, kind: Seq<char>|
        0 <= index < left.len() && (kind == "Attribute"@ || kind == "Arm"@) implies (
    #[trigger] left[index].named(kind)) == right[index].named(kind) by {
        lemma_arm_kinds(left, right, front, index);
    }
    lemma_same_count(left, right, "Attribute"@, count);
    lemma_same_count(left, right, "Arm"@, count);
    lemma_own(before, after, depth);
    lemma_cost(before, depth);
    lemma_cost(after, depth);
    lemma_match_parts(before, front, depth, count);
    lemma_match_parts(after, front, depth, count);
    lemma_front_cost(before, after, front, depth, front);
    assert(left.subrange(front as int, count as int) =~= left.skip(front as int));
    assert(right.subrange(front as int, count as int) =~= right.skip(front as int));
    lemma_sum_permuted(left.skip(front as int), right.skip(front as int), deeper(depth));
}

proof fn lemma_block_kind()
    ensures
        "Block"@ != "ExprIf"@,
        "Block"@ != "ExprMatch"@,
        "Block"@ != "ExprLoop"@,
        "Block"@ != "ExprForLoop"@,
        "Block"@ != "ExprWhile"@,
        "Block"@ != "Arm"@,
        "Block"@ != "ExprBinary"@,
        "Block"@ != "ExprUnary"@,
        "Block"@ != "ExprIndex"@,
        "Block"@ != "ExprCast"@,
        "Block"@ != "ExprAssign"@,
        "Block"@ != "ExprReference"@,
        "Block"@ != "PatIdent"@,
        "Block"@ != "ExprClosure"@,
        "Block"@ != "ExprReturn"@,
        "Block"@ != "ExprUnsafe"@,
        "Block"@ != "ExprMacro"@,
        "Block"@ != "PatMacro"@,
        "Block"@ != "ExprCall"@,
        "Block"@ != "ExprMethodCall"@,
        "Block"@ != "StmtExpr"@,
        "Block"@ != "StmtMacro"@,
        "Block"@ != "StmtItem"@,
        "Block"@ != "StmtLocal"@,
        "Block"@ != "Attribute"@,
{
    reveal_strlit("Block");
    reveal_strlit("ExprIf");
    reveal_strlit("ExprMatch");
    reveal_strlit("ExprLoop");
    reveal_strlit("ExprForLoop");
    reveal_strlit("ExprWhile");
    reveal_strlit("Arm");
    reveal_strlit("ExprBinary");
    reveal_strlit("ExprUnary");
    reveal_strlit("ExprIndex");
    reveal_strlit("ExprCast");
    reveal_strlit("ExprAssign");
    reveal_strlit("ExprReference");
    reveal_strlit("PatIdent");
    reveal_strlit("ExprClosure");
    reveal_strlit("ExprReturn");
    reveal_strlit("ExprUnsafe");
    reveal_strlit("ExprMacro");
    reveal_strlit("PatMacro");
    reveal_strlit("ExprCall");
    reveal_strlit("ExprMethodCall");
    reveal_strlit("StmtExpr");
    reveal_strlit("StmtMacro");
    reveal_strlit("StmtItem");
    reveal_strlit("StmtLocal");
    reveal_strlit("Attribute");
    assert("Block"@.len() != "ExprIf"@.len());
    assert("Block"@.len() != "ExprMatch"@.len());
    assert("Block"@.len() != "ExprLoop"@.len());
    assert("Block"@.len() != "ExprForLoop"@.len());
    assert("Block"@.len() != "ExprWhile"@.len());
    assert("Block"@.len() != "Arm"@.len());
    assert("Block"@.len() != "ExprBinary"@.len());
    assert("Block"@.len() != "ExprUnary"@.len());
    assert("Block"@.len() != "ExprIndex"@.len());
    assert("Block"@.len() != "ExprCast"@.len());
    assert("Block"@.len() != "ExprAssign"@.len());
    assert("Block"@.len() != "ExprReference"@.len());
    assert("Block"@.len() != "PatIdent"@.len());
    assert("Block"@.len() != "ExprClosure"@.len());
    assert("Block"@.len() != "ExprReturn"@.len());
    assert("Block"@.len() != "ExprUnsafe"@.len());
    assert("Block"@.len() != "ExprMacro"@.len());
    assert("Block"@.len() != "PatMacro"@.len());
    assert("Block"@.len() != "ExprCall"@.len());
    assert("Block"@.len() != "ExprMethodCall"@.len());
    assert("Block"@.len() != "StmtExpr"@.len());
    assert("Block"@.len() != "StmtMacro"@.len());
    assert("Block"@.len() != "StmtItem"@.len());
    assert("Block"@.len() != "StmtLocal"@.len());
    assert("Block"@.len() != "Attribute"@.len());
}

proof fn lemma_local_kind()
    ensures
        "StmtLocal"@ != "ExprIf"@,
        "StmtLocal"@ != "ExprMatch"@,
        "StmtLocal"@ != "ExprLoop"@,
        "StmtLocal"@ != "ExprForLoop"@,
        "StmtLocal"@ != "ExprWhile"@,
        "StmtLocal"@ != "Arm"@,
        "StmtLocal"@ != "ExprBinary"@,
        "StmtLocal"@ != "ExprUnary"@,
        "StmtLocal"@ != "ExprIndex"@,
        "StmtLocal"@ != "ExprCast"@,
        "StmtLocal"@ != "ExprAssign"@,
        "StmtLocal"@ != "ExprReference"@,
        "StmtLocal"@ != "PatIdent"@,
        "StmtLocal"@ != "ExprClosure"@,
        "StmtLocal"@ != "ExprReturn"@,
        "StmtLocal"@ != "ExprUnsafe"@,
        "StmtLocal"@ != "ExprMacro"@,
        "StmtLocal"@ != "PatMacro"@,
        "StmtLocal"@ != "ExprCall"@,
        "StmtLocal"@ != "ExprMethodCall"@,
        "StmtLocal"@ != "StmtExpr"@,
        "StmtLocal"@ != "StmtMacro"@,
        "StmtLocal"@ != "StmtItem"@,
        "StmtLocal"@ != "Attribute"@,
{
    reveal_strlit("StmtLocal");
    reveal_strlit("ExprIf");
    reveal_strlit("ExprMatch");
    reveal_strlit("ExprLoop");
    reveal_strlit("ExprForLoop");
    reveal_strlit("ExprWhile");
    reveal_strlit("Arm");
    reveal_strlit("ExprBinary");
    reveal_strlit("ExprUnary");
    reveal_strlit("ExprIndex");
    reveal_strlit("ExprCast");
    reveal_strlit("ExprAssign");
    reveal_strlit("ExprReference");
    reveal_strlit("PatIdent");
    reveal_strlit("ExprClosure");
    reveal_strlit("ExprReturn");
    reveal_strlit("ExprUnsafe");
    reveal_strlit("ExprMacro");
    reveal_strlit("PatMacro");
    reveal_strlit("ExprCall");
    reveal_strlit("ExprMethodCall");
    reveal_strlit("StmtExpr");
    reveal_strlit("StmtMacro");
    reveal_strlit("StmtItem");
    reveal_strlit("Attribute");
    assert("StmtLocal"@.len() != "ExprIf"@.len());
    assert("StmtLocal"@[0] == 'S' && "ExprMatch"@[0] == 'E');
    assert("StmtLocal"@.len() != "ExprLoop"@.len());
    assert("StmtLocal"@.len() != "ExprForLoop"@.len());
    assert("StmtLocal"@[0] == 'S' && "ExprWhile"@[0] == 'E');
    assert("StmtLocal"@.len() != "Arm"@.len());
    assert("StmtLocal"@.len() != "ExprBinary"@.len());
    assert("StmtLocal"@[0] == 'S' && "ExprUnary"@[0] == 'E');
    assert("StmtLocal"@[0] == 'S' && "ExprIndex"@[0] == 'E');
    assert("StmtLocal"@.len() != "ExprCast"@.len());
    assert("StmtLocal"@.len() != "ExprAssign"@.len());
    assert("StmtLocal"@.len() != "ExprReference"@.len());
    assert("StmtLocal"@.len() != "PatIdent"@.len());
    assert("StmtLocal"@.len() != "ExprClosure"@.len());
    assert("StmtLocal"@.len() != "ExprReturn"@.len());
    assert("StmtLocal"@.len() != "ExprUnsafe"@.len());
    assert("StmtLocal"@[0] == 'S' && "ExprMacro"@[0] == 'E');
    assert("StmtLocal"@.len() != "PatMacro"@.len());
    assert("StmtLocal"@.len() != "ExprCall"@.len());
    assert("StmtLocal"@.len() != "ExprMethodCall"@.len());
    assert("StmtLocal"@.len() != "StmtExpr"@.len());
    assert("StmtLocal"@[4] == 'L' && "StmtMacro"@[4] == 'M');
    assert("StmtLocal"@.len() != "StmtItem"@.len());
    assert("StmtLocal"@[0] == 'S' && "Attribute"@[0] == 'A');
}

proof fn lemma_path_kind()
    ensures
        "ExprPath"@ != "ExprIf"@,
        "ExprPath"@ != "ExprMatch"@,
        "ExprPath"@ != "ExprLoop"@,
        "ExprPath"@ != "ExprForLoop"@,
        "ExprPath"@ != "ExprWhile"@,
        "ExprPath"@ != "Arm"@,
        "ExprPath"@ != "ExprBinary"@,
        "ExprPath"@ != "ExprUnary"@,
        "ExprPath"@ != "ExprIndex"@,
        "ExprPath"@ != "ExprCast"@,
        "ExprPath"@ != "ExprAssign"@,
        "ExprPath"@ != "ExprReference"@,
        "ExprPath"@ != "PatIdent"@,
        "ExprPath"@ != "ExprClosure"@,
        "ExprPath"@ != "ExprReturn"@,
        "ExprPath"@ != "ExprUnsafe"@,
        "ExprPath"@ != "ExprMacro"@,
        "ExprPath"@ != "PatMacro"@,
        "ExprPath"@ != "ExprCall"@,
        "ExprPath"@ != "ExprMethodCall"@,
        "ExprPath"@ != "StmtExpr"@,
        "ExprPath"@ != "StmtMacro"@,
        "ExprPath"@ != "StmtItem"@,
        "ExprPath"@ != "StmtLocal"@,
        "ExprPath"@ != "Attribute"@,
{
    reveal_strlit("ExprPath");
    reveal_strlit("ExprIf");
    reveal_strlit("ExprMatch");
    reveal_strlit("ExprLoop");
    reveal_strlit("ExprForLoop");
    reveal_strlit("ExprWhile");
    reveal_strlit("Arm");
    reveal_strlit("ExprBinary");
    reveal_strlit("ExprUnary");
    reveal_strlit("ExprIndex");
    reveal_strlit("ExprCast");
    reveal_strlit("ExprAssign");
    reveal_strlit("ExprReference");
    reveal_strlit("PatIdent");
    reveal_strlit("ExprClosure");
    reveal_strlit("ExprReturn");
    reveal_strlit("ExprUnsafe");
    reveal_strlit("ExprMacro");
    reveal_strlit("PatMacro");
    reveal_strlit("ExprCall");
    reveal_strlit("ExprMethodCall");
    reveal_strlit("StmtExpr");
    reveal_strlit("StmtMacro");
    reveal_strlit("StmtItem");
    reveal_strlit("StmtLocal");
    reveal_strlit("Attribute");
    assert("ExprPath"@.len() != "ExprIf"@.len());
    assert("ExprPath"@.len() != "ExprMatch"@.len());
    assert("ExprPath"@[4] == 'P' && "ExprLoop"@[4] == 'L');
    assert("ExprPath"@.len() != "ExprForLoop"@.len());
    assert("ExprPath"@.len() != "ExprWhile"@.len());
    assert("ExprPath"@.len() != "Arm"@.len());
    assert("ExprPath"@.len() != "ExprBinary"@.len());
    assert("ExprPath"@.len() != "ExprUnary"@.len());
    assert("ExprPath"@.len() != "ExprIndex"@.len());
    assert("ExprPath"@[4] == 'P' && "ExprCast"@[4] == 'C');
    assert("ExprPath"@.len() != "ExprAssign"@.len());
    assert("ExprPath"@.len() != "ExprReference"@.len());
    assert("ExprPath"@[0] == 'E' && "PatIdent"@[0] == 'P');
    assert("ExprPath"@.len() != "ExprClosure"@.len());
    assert("ExprPath"@.len() != "ExprReturn"@.len());
    assert("ExprPath"@.len() != "ExprUnsafe"@.len());
    assert("ExprPath"@.len() != "ExprMacro"@.len());
    assert("ExprPath"@[0] == 'E' && "PatMacro"@[0] == 'P');
    assert("ExprPath"@[4] == 'P' && "ExprCall"@[4] == 'C');
    assert("ExprPath"@.len() != "ExprMethodCall"@.len());
    assert("ExprPath"@[0] == 'E' && "StmtExpr"@[0] == 'S');
    assert("ExprPath"@.len() != "StmtMacro"@.len());
    assert("ExprPath"@[0] == 'E' && "StmtItem"@[0] == 'S');
    assert("ExprPath"@.len() != "StmtLocal"@.len());
    assert("ExprPath"@.len() != "Attribute"@.len());
}

proof fn lemma_sum_concat(left: Seq<SyntaxNode>, right: Seq<SyntaxNode>, depth: usize)
    ensures
        sum_cost(left + right, depth) == sum_cost(left, depth).plus(sum_cost(right, depth)),
    decreases right.len(),
{
    if right.len() == 0 {
        assert(left + right =~= left);
    } else {
        lemma_sum_concat(left, right.drop_last(), depth);
        assert((left + right).drop_last() =~= left + right.drop_last());
        assert((left + right).last() == right.last());
    }
}

proof fn lemma_block_parts(node: SyntaxNode, depth: usize, count: nat)
    requires
        node.named("Block"@),
        count <= node.children@.len(),
    ensures
        parts_cost(node, depth, count) == sum_cost(node.children@.take(count as int), depth),
    decreases count,
{
    lemma_block_kind();
    if count > 0 {
        lemma_block_parts(node, depth, (count - 1) as nat);
        let listed = node.children@.take(count as int);
        assert(listed.drop_last() =~= node.children@.take(count - 1));
        assert(listed.last() == node.children@[count - 1]);
        assert(part_cost(node, count - 1, depth) == cost(listed.last(), depth));
    }
}

proof fn lemma_block_cost(node: SyntaxNode, depth: usize)
    requires
        node.named("Block"@),
    ensures
        cost(node, depth) == sum_cost(node.children@, depth),
{
    lemma_block_kind();
    lemma_cost(node, depth);
    assert(rust_own(node, depth) =~= Seq::<Signal>::empty());
    lemma_block_parts(node, depth, node.children@.len());
    assert(node.children@.take(node.children@.len() as int) =~= node.children@);
}

/// Whether a tree adds nothing at any depth.
pub open spec fn costless(node: SyntaxNode) -> bool {
    forall|depth: usize| #[trigger] cost(node, depth) == Burden::none()
}

/// Whether a statement gives a value a name by an immutable `let`, with or
/// without a type.
pub open spec fn names_value(binding: SyntaxNode, value: SyntaxNode) -> bool {
    &&& binding.named("StmtLocal"@)
    &&& binding.children@.len() == 2
    &&& binding.children@[1] == value
    &&& costless(binding.children@[0])
    &&& !binding.children@[0].named("Attribute"@)
    &&& !value.named("Attribute"@)
}

proof fn lemma_binding_cost(binding: SyntaxNode, value: SyntaxNode, depth: usize)
    requires
        names_value(binding, value),
    ensures
        cost(binding, depth) == cost(value, depth),
{
    lemma_local_kind();
    reveal_with_fuel(named_count, 3);
    reveal_with_fuel(parts_cost, 3);
    assert(attribute_count(binding) == 0);
    lemma_cost(binding, depth);
    let own = rust_own(binding, depth);
    assert(own.len() == 1 && own[0].kind == SignalKind::Statement);
    lemma_single(own[0]);
    assert(own =~= seq![own[0]]);
    assert(cost(binding.children@[0], depth) == Burden::none());
}

proof fn lemma_name_cost(name: SyntaxNode, depth: usize)
    requires
        name.named("ExprPath"@),
        name.children@.len() == 0,
    ensures
        cost(name, depth) == Burden::none(),
{
    lemma_path_kind();
    lemma_cost(name, depth);
    assert(rust_own(name, depth) =~= Seq::<Signal>::empty());
}

/// Whether a block is another with a part of a statement named: just before the
/// statement stands a `let` with that part, and the name stands in its place.
/// The part is one that is looked at as soon as the statement is, at its depth.
pub open spec fn part_named(
    before: SyntaxNode,
    after: SyntaxNode,
    index: int,
    path: Seq<int>,
    depth: usize,
) -> bool {
    let old_parts = before.children@;
    let new_parts = after.children@;
    &&& before.named("Block"@) && after.named("Block"@)
    &&& 0 <= index < old_parts.len()
    &&& new_parts.len() == old_parts.len() + 1
    &&& new_parts.take(index) == old_parts.take(index)
    &&& new_parts.skip(index + 2) == old_parts.skip(index + 1)
    &&& same_but_at(old_parts[index], new_parts[index + 1], path)
    &&& comes_to(old_parts[index], path)
    &&& depth_at(old_parts[index], path, depth) == depth
    &&& names_value(new_parts[index], part_at(old_parts[index], path))
    &&& part_at(new_parts[index + 1], path).named("ExprPath"@)
    &&& part_at(new_parts[index + 1], path).children@.len() == 0
}

/// Naming a part of a statement adds nothing.
pub proof fn naming_a_part_adds_nothing(
    before: SyntaxNode,
    after: SyntaxNode,
    index: int,
    path: Seq<int>,
    depth: usize,
)
    requires
        part_named(before, after, index, path, depth),
    ensures
        cost(after, depth) == cost(before, depth),
{
    let left = before.children@;
    let right = after.children@;
    let front = left.take(index);
    let back = left.skip(index + 1);
    let value = part_at(left[index], path);
    lemma_block_cost(before, depth);
    lemma_block_cost(after, depth);
    assert(left =~= front + (seq![left[index]] + back));
    let whole = front + (seq![right[index], right[index + 1]] + back);
    assert forall|place: int| 0 <= place < right.len() implies #[trigger] right[place]
        == whole[place] by {
        if place < index {
            assert(right.take(index)[place] == right[place]);
        } else if place >= index + 2 {
            assert(right.skip(index + 2)[place - index - 2] == right[place]);
        }
    }
    assert(right =~= whole);
    lemma_sum_concat(front, seq![left[index]] + back, depth);
    lemma_sum_concat(seq![left[index]], back, depth);
    lemma_sum_concat(front, seq![right[index], right[index + 1]] + back, depth);
    lemma_sum_concat(seq![right[index], right[index + 1]], back, depth);
    lemma_sum_concat(seq![right[index]], seq![right[index + 1]], depth);
    assert(seq![right[index], right[index + 1]] =~= seq![right[index]] + seq![right[index + 1]]);
    lemma_sum_single(left[index], depth);
    lemma_sum_single(right[index], depth);
    lemma_sum_single(right[index + 1], depth);
    a_part_adds_what_it_adds_itself(left[index], right[index + 1], path, depth);
    lemma_binding_cost(right[index], value, depth);
    lemma_name_cost(part_at(right[index + 1], path), depth);
}

proof fn lemma_sum_single(node: SyntaxNode, depth: usize)
    ensures
        sum_cost(seq![node], depth) == cost(node, depth),
{
    assert(seq![node].drop_last() =~= Seq::<SyntaxNode>::empty());
    assert(sum_cost(Seq::<SyntaxNode>::empty(), depth) == Burden::none());
}

/// Whether a node is another with an attribute put before it.
pub open spec fn attribute_put_before(plain: SyntaxNode, marked: SyntaxNode) -> bool {
    &&& same_node(plain, marked)
    &&& marked.children@.len() == plain.children@.len() + 1
    &&& marked.children@.skip(1) == plain.children@
    &&& marked.children@[0].named("Attribute"@)
    &&& costless(marked.children@[0])
}

proof fn lemma_count_behind(parts: Seq<SyntaxNode>, kind: Seq<char>, count: nat)
    requires
        count < parts.len(),
    ensures
        named_count(parts, kind, count + 1) == named_count(parts.skip(1), kind, count) + (
        if parts[0].named(kind) {
            1nat
        } else {
            0nat
        }),
    decreases count,
{
    if count > 0 {
        lemma_count_behind(parts, kind, (count - 1) as nat);
        assert(parts.skip(1)[count - 1] == parts[count as int]);
    } else {
        reveal_with_fuel(named_count, 2);
    }
}

proof fn lemma_parts_behind(plain: SyntaxNode, marked: SyntaxNode, depth: usize, count: nat)
    requires
        attribute_put_before(plain, marked),
        attribute_count(marked) == attribute_count(plain) + 1,
        count <= plain.children@.len(),
    ensures
        parts_cost(marked, depth, count + 1) == parts_cost(plain, depth, count),
    decreases count,
{
    if count > 0 {
        lemma_parts_behind(plain, marked, depth, (count - 1) as nat);
        assert(marked.children@.skip(1)[count - 1] == marked.children@[count as int]);
        assert(part_cost(marked, count as int, depth) == part_cost(plain, count - 1, depth));
    } else {
        reveal_with_fuel(parts_cost, 2);
        let inner = rust_part_depth(marked, 0, depth);
        assert(cost(marked.children@[0], inner) == Burden::none());
    }
}

/// An attribute before a node adds nothing.
pub proof fn attributes_add_nothing(plain: SyntaxNode, marked: SyntaxNode, depth: usize)
    requires
        attribute_put_before(plain, marked),
    ensures
        cost(marked, depth) == cost(plain, depth),
{
    let count = plain.children@.len();
    reveal_strlit("Attribute");
    reveal_strlit("Arm");
    assert("Attribute"@.len() != "Arm"@.len());
    lemma_count_behind(marked.children@, "Attribute"@, count);
    lemma_count_behind(marked.children@, "Arm"@, count);
    lemma_own(plain, marked, depth);
    lemma_cost(plain, depth);
    lemma_cost(marked, depth);
    lemma_parts_behind(plain, marked, depth, count);
}

/// Whether a part of a tree is rewritten in a way that only writes it otherwise:
/// with or without parentheses, with or without an attribute, with its arms in
/// another order, or with a part of a statement named.
pub open spec fn written_otherwise(before: SyntaxNode, after: SyntaxNode, depth: usize) -> bool {
    ||| parenthesized(before, after)
    ||| parenthesized(after, before)
    ||| attribute_put_before(before, after)
    ||| attribute_put_before(after, before)
    ||| exists|front: nat| arms_reordered(before, after, front)
    ||| exists|index: int, path: Seq<int>| part_named(before, after, index, path, depth)
    ||| exists|index: int, path: Seq<int>| part_named(after, before, index, path, depth)
}

/// Wherever in a callable a part of it is written otherwise, its score and its
/// expression operations stay as they are.
pub proof fn rewriting_keeps_the_score(
    before: SyntaxNode,
    after: SyntaxNode,
    path: Seq<int>,
    first_metrics: Metrics,
    second_metrics: Metrics,
    first_score: Score,
    second_score: Score,
    first_lines: usize,
    second_lines: usize,
    parameters: usize,
    explicit_parameters: usize,
)
    requires
        same_but_at(before, after, path),
        written_otherwise(
            part_at(before, path),
            part_at(after, path),
            depth_at(before, path, 0),
        ),
        measures(
            first_metrics,
            signals(Dialect::Rust, before, 0),
            first_lines,
            parameters,
            explicit_parameters,
        ),
        measures(
            second_metrics,
            signals(Dialect::Rust, after, 0),
            second_lines,
            parameters,
            explicit_parameters,
        ),
        scores(first_score, first_metrics),
        scores(second_score, second_metrics),
    ensures
        first_score.value == second_score.value,
        first_metrics.expression_operations == second_metrics.expression_operations,
{
    let left = part_at(before, path);
    let right = part_at(after, path);
    let depth = depth_at(before, path, 0);
    if parenthesized(left, right) {
        parentheses_add_nothing(left, right, depth);
    } else if parenthesized(right, left) {
        parentheses_add_nothing(right, left, depth);
    } else if attribute_put_before(left, right) {
        attributes_add_nothing(left, right, depth);
    } else if attribute_put_before(right, left) {
        attributes_add_nothing(right, left, depth);
    } else if exists|front: nat| arms_reordered(left, right, front) {
        let front = choose|front: nat| arms_reordered(left, right, front);
        arm_order_adds_nothing(left, right, front, depth);
    } else if exists|index: int, inner: Seq<int>| part_named(left, right, index, inner, depth) {
        let (index, inner) = choose|index: int, inner: Seq<int>|
            part_named(left, right, index, inner, depth);
        naming_a_part_adds_nothing(left, right, index, inner, depth);
    } else {
        let (index, inner) = choose|index: int, inner: Seq<int>|
            part_named(right, left, index, inner, depth);
        naming_a_part_adds_nothing(right, left, index, inner, depth);
    }
    a_part_adds_what_it_adds_itself(before, after, path, 0);
    assert(cost(before, 0) == cost(after, 0));
    equal_burdens_score_alike(
        signals(Dialect::Rust, before, 0),
        signals(Dialect::Rust, after, 0),
        first_metrics,
        second_metrics,
        first_score,
        second_score,
        first_lines,
        second_lines,
        parameters,
        explicit_parameters,
    );
}

}
