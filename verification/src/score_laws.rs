//! What leaves a structural score as it is.
use vstd::prelude::*;
use crate::javascript_syntax::{
    closed_off, counted_loop, counted_statement, javascript_own, javascript_part_steps,
    javascript_particular, javascript_step, lone_branch,
};
use crate::model::{Metrics, Score};
use crate::node_signals::{node_signal, part_signals};
use crate::python_syntax::{
    body_steps, comprehension_steps, header_steps, picked_steps, python_particular, python_steps,
};
use crate::rust_syntax::{
    attribute_count, let_else, operator, rust_closed_off, rust_own, rust_part_steps, rust_steps,
};
use crate::score::{component_sum, scores};
use crate::signals::{deeper, measures, nesting, signal_count, Signal, SignalKind};
use crate::syntax::{named_count, SyntaxNode};
use crate::text::begins;
use crate::walk::{own_signals, signals, step_signals, steps, walk_signals, Dialect, Step};

verus! {

/// Whether signals of a kind add to the score.
pub open spec fn scored_kind(kind: SignalKind) -> bool {
    kind == SignalKind::Branch || kind == SignalKind::Guard || kind
        == SignalKind::BooleanOperator || kind == SignalKind::Operation || kind
        == SignalKind::CallSite || kind == SignalKind::MatchArm
}

/// What a signal is, wherever it comes from.
pub struct Mark {
    pub kind: SignalKind,
    pub depth: usize,
}

/// What signals are, wherever they come from.
pub open spec fn marks(list: Seq<Signal>) -> Seq<Mark> {
    list.map_values(|signal: Signal| Mark { kind: signal.kind, depth: signal.depth })
}

/// Those of the first `count` signals that add to the score.
pub open spec fn scored_marks(list: Seq<Signal>, count: nat) -> Seq<Mark>
    decreases count,
{
    if count == 0 {
        Seq::empty()
    } else {
        let earlier = scored_marks(list, (count - 1) as nat);
        if scored_kind(list[count - 1].kind) {
            earlier.push(Mark { kind: list[count - 1].kind, depth: list[count - 1].depth })
        } else {
            earlier
        }
    }
}

/// How many of the first `count` marks are of a kind.
spec fn mark_count(list: Seq<Mark>, kind: SignalKind, count: nat) -> nat
    decreases count,
{
    if count == 0 {
        0
    } else {
        mark_count(list, kind, (count - 1) as nat) + if list[count - 1].kind == kind {
            1nat
        } else {
            0nat
        }
    }
}

/// The depths of the decisions among the first `count` marks, added up.
spec fn mark_nesting(list: Seq<Mark>, count: nat) -> nat
    decreases count,
{
    if count == 0 {
        0
    } else {
        mark_nesting(list, (count - 1) as nat) + if list[count - 1].kind == SignalKind::Branch
            || list[count - 1].kind == SignalKind::Guard {
            list[count - 1].depth as nat
        } else {
            0
        }
    }
}

proof fn lemma_mark_prefix(longer: Seq<Mark>, shorter: Seq<Mark>, kind: SignalKind, count: nat)
    requires
        count <= shorter.len() <= longer.len(),
        forall|index: int| 0 <= index < count ==> longer[index] == shorter[index],
    ensures
        mark_count(longer, kind, count) == mark_count(shorter, kind, count),
        mark_nesting(longer, count) == mark_nesting(shorter, count),
    decreases count,
{
    if count > 0 {
        lemma_mark_prefix(longer, shorter, kind, (count - 1) as nat);
    }
}

proof fn lemma_scored_counts(list: Seq<Signal>, kind: SignalKind, count: nat)
    requires
        count <= list.len(),
        scored_kind(kind),
    ensures
        ({
            let kept = scored_marks(list, count);
            &&& mark_count(kept, kind, kept.len()) == signal_count(list, kind, count)
            &&& mark_nesting(kept, kept.len()) == nesting(list, count)
        }),
    decreases count,
{
    if count > 0 {
        lemma_scored_counts(list, kind, (count - 1) as nat);
        let earlier = scored_marks(list, (count - 1) as nat);
        lemma_mark_prefix(scored_marks(list, count), earlier, kind, earlier.len());
    }
}

/// The score of a callable comes from its decisions, operators, operations,
/// calls, match arms and parameters alone: statements, loops as such, returns,
/// mutations, closures and macro calls add nothing.
pub proof fn only_scored_signals_count(
    first: Seq<Signal>,
    second: Seq<Signal>,
    first_metrics: Metrics,
    second_metrics: Metrics,
    first_score: Score,
    second_score: Score,
    first_lines: usize,
    second_lines: usize,
    first_parameters: usize,
    second_parameters: usize,
    explicit_parameters: usize,
)
    requires
        scored_marks(first, first.len()) == scored_marks(second, second.len()),
        measures(first_metrics, first, first_lines, first_parameters, explicit_parameters),
        measures(second_metrics, second, second_lines, second_parameters, explicit_parameters),
        scores(first_score, first_metrics),
        scores(second_score, second_metrics),
    ensures
        first_score.value == second_score.value,
        first_score.units == second_score.units,
{
    lemma_scored_counts(first, SignalKind::Branch, first.len());
    lemma_scored_counts(second, SignalKind::Branch, second.len());
    lemma_scored_counts(first, SignalKind::Guard, first.len());
    lemma_scored_counts(second, SignalKind::Guard, second.len());
    lemma_scored_counts(first, SignalKind::BooleanOperator, first.len());
    lemma_scored_counts(second, SignalKind::BooleanOperator, second.len());
    lemma_scored_counts(first, SignalKind::Operation, first.len());
    lemma_scored_counts(second, SignalKind::Operation, second.len());
    lemma_scored_counts(first, SignalKind::CallSite, first.len());
    lemma_scored_counts(second, SignalKind::CallSite, second.len());
    lemma_scored_counts(first, SignalKind::MatchArm, first.len());
    lemma_scored_counts(second, SignalKind::MatchArm, second.len());
    assert(component_sum(first_score) == component_sum(second_score));
}

/// Whether what a node names tells the same of it as of another: the operator of
/// a binary operation in Rust, and whether a function is an expression in
/// JavaScript.
pub open spec fn told_alike(dialect: Dialect, left: SyntaxNode, right: SyntaxNode) -> bool {
    match dialect {
        Dialect::Rust => left.named("ExprBinary"@) ==> operator(left) == operator(right),
        Dialect::JavaScript => left.named("Function"@) ==> left.text@ == right.text@,
        Dialect::Python => true,
    }
}

/// Whether two syntax trees are the same but for where they stand and how names
/// and literals are spelled.
pub open spec fn same_shape(dialect: Dialect, left: SyntaxNode, right: SyntaxNode) -> bool
    decreases left, left.children@.len() + 1,
{
    &&& left.kind@ == right.kind@
    &&& told_alike(dialect, left, right)
    &&& left.flag == right.flag
    &&& left.children@.len() == right.children@.len()
    &&& same_parts(dialect, left, right, left.children@.len())
}

/// Whether the first `count` parts of two trees have the same shape.
pub open spec fn same_parts(dialect: Dialect, left: SyntaxNode, right: SyntaxNode, count: nat) -> bool
    decreases left, count,
{
    if count == 0 || count > left.children@.len() || count > right.children@.len() {
        true
    } else {
        same_parts(dialect, left, right, (count - 1) as nat) && same_shape(
            dialect,
            left.children@[count - 1],
            right.children@[count - 1],
        )
    }
}

proof fn lemma_same_part(
    dialect: Dialect,
    left: SyntaxNode,
    right: SyntaxNode,
    count: nat,
    index: int,
)
    requires
        same_parts(dialect, left, right, count),
        0 <= index < count,
        count <= left.children@.len(),
        count <= right.children@.len(),
    ensures
        same_shape(dialect, left.children@[index], right.children@[index]),
    decreases count,
{
    if index < count - 1 {
        lemma_same_part(dialect, left, right, (count - 1) as nat, index);
    }
}

proof fn lemma_same_named(
    dialect: Dialect,
    left: SyntaxNode,
    right: SyntaxNode,
    name: Seq<char>,
    count: nat,
)
    requires
        same_shape(dialect, left, right),
        count <= left.children@.len(),
    ensures
        named_count(left.children@, name, count) == named_count(right.children@, name, count),
    decreases count,
{
    if count > 0 {
        lemma_same_named(dialect, left, right, name, (count - 1) as nat);
        lemma_same_part(dialect, left, right, left.children@.len(), count - 1);
    }
}

proof fn lemma_marks_concat(first: Seq<Signal>, second: Seq<Signal>)
    ensures
        marks(first + second) == marks(first) + marks(second),
{
    assert(marks(first + second) =~= marks(first) + marks(second));
}

proof fn lemma_marks_push(list: Seq<Signal>, signal: Signal)
    ensures
        marks(list.push(signal)) == marks(list).push(
            Mark { kind: signal.kind, depth: signal.depth },
        ),
{
    assert(marks(list.push(signal)) =~= marks(list).push(
        Mark { kind: signal.kind, depth: signal.depth },
    ));
}

proof fn lemma_same_part_signals(
    dialect: Dialect,
    left: SyntaxNode,
    right: SyntaxNode,
    kind: SignalKind,
    name: Seq<char>,
    depth: usize,
    count: nat,
)
    requires
        same_shape(dialect, left, right),
        count <= left.children@.len(),
    ensures
        marks(part_signals(kind, left.children@, name, depth, count)) == marks(
            part_signals(kind, right.children@, name, depth, count),
        ),
    decreases count,
{
    if count > 0 {
        lemma_same_part_signals(dialect, left, right, kind, name, depth, (count - 1) as nat);
        lemma_same_part(dialect, left, right, left.children@.len(), count - 1);
        let first = left.children@;
        let second = right.children@;
        lemma_marks_push(
            part_signals(kind, first, name, depth, (count - 1) as nat),
            node_signal(kind, first[count - 1], depth),
        );
        lemma_marks_push(
            part_signals(kind, second, name, depth, (count - 1) as nat),
            node_signal(kind, second[count - 1], depth),
        );
    }
}

proof fn lemma_same_pairs(first: Seq<Signal>, second: Seq<Signal>)
    requires
        first.len() == second.len(),
        forall|index: int|
            0 <= index < first.len() ==> (#[trigger] first[index]).kind == second[index].kind
                && first[index].depth == second[index].depth,
    ensures
        marks(first) == marks(second),
{
    assert forall|index: int| 0 <= index < first.len() implies marks(first)[index] == marks(
        second,
    )[index] by {
        assert(first[index].kind == second[index].kind);
    }
    assert(marks(first) =~= marks(second));
}

proof fn lemma_same_decision(
    dialect: Dialect,
    left: SyntaxNode,
    right: SyntaxNode,
    name: Seq<char>,
    depth: usize,
)
    requires
        same_shape(dialect, left, right),
    ensures
        ({
            let arms = |node: SyntaxNode|
                seq![node_signal(SignalKind::Branch, node, depth)] + part_signals(
                    SignalKind::MatchArm,
                    node.children@,
                    name,
                    depth,
                    node.children@.len(),
                );
            marks(arms(left)) == marks(arms(right))
        }),
{
    let count = left.children@.len();
    lemma_same_part_signals(dialect, left, right, SignalKind::MatchArm, name, depth, count);
    let first = seq![node_signal(SignalKind::Branch, left, depth)];
    let second = seq![node_signal(SignalKind::Branch, right, depth)];
    lemma_marks_concat(
        first,
        part_signals(SignalKind::MatchArm, left.children@, name, depth, count),
    );
    lemma_marks_concat(
        second,
        part_signals(SignalKind::MatchArm, right.children@, name, depth, count),
    );
    lemma_same_pairs(first, second);
}

proof fn lemma_same_rust_own(left: SyntaxNode, right: SyntaxNode, depth: usize)
    requires
        same_shape(Dialect::Rust, left, right),
    ensures
        marks(rust_own(left, depth)) == marks(rust_own(right, depth)),
{
    lemma_same_named(Dialect::Rust, left, right, "Attribute"@, left.children@.len());
    assert(attribute_count(left) == attribute_count(right));
    if left.named("ExprMatch"@) && !left.named("ExprIf"@) {
        lemma_same_decision(Dialect::Rust, left, right, "Arm"@, depth);
    } else {
        lemma_same_pairs(rust_own(left, depth), rust_own(right, depth));
    }
}

proof fn lemma_same_javascript_own(left: SyntaxNode, right: SyntaxNode, depth: usize)
    requires
        same_shape(Dialect::JavaScript, left, right),
    ensures
        marks(javascript_own(left, depth)) == marks(javascript_own(right, depth)),
{
    let first = |node: SyntaxNode|
        if counted_statement(node) {
            seq![node_signal(SignalKind::Statement, node, depth)]
        } else {
            Seq::<Signal>::empty()
        };
    lemma_same_pairs(first(left), first(right));
    lemma_marks_concat(first(left), javascript_particular(left, depth));
    lemma_marks_concat(first(right), javascript_particular(right, depth));
    if left.named("SwitchStatement"@) && !lone_branch(left) && !counted_loop(left) {
        lemma_same_decision(Dialect::JavaScript, left, right, "SwitchCase"@, depth);
    } else {
        lemma_same_pairs(javascript_particular(left, depth), javascript_particular(right, depth));
    }
}

proof fn lemma_same_python_particular(left: SyntaxNode, right: SyntaxNode, depth: usize)
    requires
        same_shape(Dialect::Python, left, right),
    ensures
        marks(python_particular(left, depth)) == marks(python_particular(right, depth)),
{
    lemma_python_kinds();
    if left.named("StmtWith"@) {
        lemma_same_part_signals(
            Dialect::Python,
            left,
            right,
            SignalKind::Operation,
            "WithItem"@,
            depth,
            left.children@.len(),
        );
    } else if left.named("StmtMatch"@) {
        lemma_same_decision(Dialect::Python, left, right, "MatchCase"@, depth);
    } else {
        lemma_same_pairs(python_particular(left, depth), python_particular(right, depth));
    }
}

proof fn lemma_python_kinds()
    ensures
        "StmtWith"@ != "StmtIf"@,
        "StmtWith"@ != "ExprIf"@,
        "StmtWith"@ != "ExceptHandlerExceptHandler"@,
        "StmtWith"@ != "ElifElseClause"@,
        "StmtWith"@ != "StmtFor"@,
        "StmtWith"@ != "StmtWhile"@,
        "StmtWith"@ != "Comprehension"@,
        "StmtMatch"@ != "StmtIf"@,
        "StmtMatch"@ != "ExprIf"@,
        "StmtMatch"@ != "ExceptHandlerExceptHandler"@,
        "StmtMatch"@ != "ElifElseClause"@,
        "StmtMatch"@ != "StmtFor"@,
        "StmtMatch"@ != "StmtWhile"@,
        "StmtMatch"@ != "Comprehension"@,
{
    reveal_strlit("StmtWith");
    reveal_strlit("StmtMatch");
    reveal_strlit("StmtIf");
    reveal_strlit("ExprIf");
    reveal_strlit("ExceptHandlerExceptHandler");
    reveal_strlit("ElifElseClause");
    reveal_strlit("StmtFor");
    reveal_strlit("StmtWhile");
    reveal_strlit("Comprehension");
    assert("StmtWith"@.len() == 8 && "StmtMatch"@.len() == 9 && "StmtIf"@.len() == 6
        && "ExprIf"@.len() == 6 && "StmtFor"@.len() == 7 && "Comprehension"@.len() == 13);
    assert("StmtMatch"@[4] == 'M' && "StmtWhile"@[4] == 'W');
    assert("StmtWith"@.len() != "StmtWhile"@.len());
}

proof fn lemma_same_own(dialect: Dialect, left: SyntaxNode, right: SyntaxNode, depth: usize)
    requires
        same_shape(dialect, left, right),
    ensures
        marks(own_signals(dialect, left, depth)) == marks(own_signals(dialect, right, depth)),
{
    match dialect {
        Dialect::Rust => lemma_same_rust_own(left, right, depth),
        Dialect::JavaScript => lemma_same_javascript_own(left, right, depth),
        Dialect::Python => {
            let first = |node: SyntaxNode|
                if begins(node.kind@, "Stmt"@) {
                    seq![node_signal(SignalKind::Statement, node, depth)]
                } else {
                    Seq::<Signal>::empty()
                };
            lemma_same_python_particular(left, right, depth);
            lemma_same_pairs(first(left), first(right));
            lemma_marks_concat(first(left), python_particular(left, depth));
            lemma_marks_concat(first(right), python_particular(right, depth));
        },
    }
}

proof fn lemma_same_part_steps(left: SyntaxNode, right: SyntaxNode, depth: usize, count: nat)
    requires
        same_shape(Dialect::Rust, left, right),
        count <= left.children@.len(),
    ensures
        rust_part_steps(left, depth, count) == rust_part_steps(right, depth, count),
    decreases count,
{
    if count > 0 {
        let whole = left.children@.len();
        lemma_same_part_steps(left, right, depth, (count - 1) as nat);
        lemma_same_part(Dialect::Rust, left, right, whole, count - 1);
        lemma_same_named(Dialect::Rust, left, right, "Attribute"@, whole);
        assert(attribute_count(left) == attribute_count(right));
    }
}

proof fn lemma_same_javascript_steps(
    left: SyntaxNode,
    right: SyntaxNode,
    depth: usize,
    count: nat,
)
    requires
        same_shape(Dialect::JavaScript, left, right),
        count <= left.children@.len(),
    ensures
        javascript_part_steps(left, depth, count) == javascript_part_steps(right, depth, count),
    decreases count,
{
    if count > 0 {
        let whole = left.children@.len();
        lemma_same_javascript_steps(left, right, depth, (count - 1) as nat);
        lemma_same_part(Dialect::JavaScript, left, right, whole, count - 1);
        lemma_same_named(Dialect::JavaScript, left, right, "Decorator"@, whole);
        assert(javascript_step(left, count - 1, depth) == javascript_step(
            right,
            count - 1,
            depth,
        ));
    }
}

proof fn lemma_same_header_steps(
    left: SyntaxNode,
    right: SyntaxNode,
    depth: usize,
    count: nat,
)
    requires
        same_shape(Dialect::Python, left, right),
        count <= left.children@.len(),
    ensures
        header_steps(left.children@, depth, count) == header_steps(right.children@, depth, count),
    decreases count,
{
    if count > 0 {
        lemma_same_header_steps(left, right, depth, (count - 1) as nat);
        lemma_same_part(Dialect::Python, left, right, left.children@.len(), count - 1);
    }
}

proof fn lemma_same_body_steps(
    left: SyntaxNode,
    right: SyntaxNode,
    inside: usize,
    outside: usize,
)
    requires
        same_shape(Dialect::Python, left, right),
    ensures
        body_steps(left.children@, inside, outside) == body_steps(
            right.children@,
            inside,
            outside,
        ),
{
    assert forall|child: int| 0 <= child < left.children@.len() implies body_steps(
        left.children@,
        inside,
        outside,
    )[child] == body_steps(right.children@, inside, outside)[child] by {
        lemma_same_part(Dialect::Python, left, right, left.children@.len(), child);
    }
    assert(body_steps(left.children@, inside, outside) =~= body_steps(
        right.children@,
        inside,
        outside,
    ));
}

proof fn lemma_same_picked_steps(
    left: SyntaxNode,
    right: SyntaxNode,
    kind: Seq<char>,
    wanted: bool,
    quiet: bool,
    depth: usize,
    count: nat,
)
    requires
        same_shape(Dialect::Python, left, right),
        count <= left.children@.len(),
    ensures
        picked_steps(left.children@, kind, wanted, quiet, depth, count) == picked_steps(
            right.children@,
            kind,
            wanted,
            quiet,
            depth,
            count,
        ),
    decreases count,
{
    if count > 0 {
        lemma_same_picked_steps(left, right, kind, wanted, quiet, depth, (count - 1) as nat);
        lemma_same_part(Dialect::Python, left, right, left.children@.len(), count - 1);
    }
}

proof fn lemma_same_python_steps(
    left: SyntaxNode,
    right: SyntaxNode,
    depth: usize,
    quiet: bool,
)
    requires
        same_shape(Dialect::Python, left, right),
    ensures
        python_steps(left, depth, quiet, false) == python_steps(right, depth, quiet, false),
{
    let count = left.children@.len();
    lemma_same_header_steps(left, right, depth, count);
    lemma_same_picked_steps(
        left,
        right,
        "ParameterWithDefault"@,
        true,
        true,
        depth,
        count,
    );
    lemma_same_picked_steps(left, right, "Keyword"@, false, false, depth, count);
    lemma_same_picked_steps(left, right, "Keyword"@, true, false, depth, count);
    lemma_same_body_steps(left, right, deeper(depth), depth);
    lemma_same_named(Dialect::Python, left, right, "Comprehension"@, count);
    if count > 0 {
        lemma_same_part(Dialect::Python, left, right, count, 0);
    }
    assert(comprehension_steps(left.children@, depth) =~= comprehension_steps(
        right.children@,
        depth,
    ));
    assert(python_steps(left, depth, quiet, false) =~= python_steps(right, depth, quiet, false));
}

proof fn lemma_same_steps(
    dialect: Dialect,
    left: SyntaxNode,
    right: SyntaxNode,
    depth: usize,
    quiet: bool,
)
    requires
        same_shape(dialect, left, right),
    ensures
        steps(dialect, left, depth, quiet) == steps(dialect, right, depth, quiet),
{
    let count = left.children@.len();
    match dialect {
        Dialect::Rust => lemma_same_part_steps(left, right, depth, count),
        Dialect::JavaScript => lemma_same_javascript_steps(left, right, depth, count),
        Dialect::Python => lemma_same_python_steps(left, right, depth, quiet),
    }
}

proof fn lemma_same_signals(
    dialect: Dialect,
    left: SyntaxNode,
    right: SyntaxNode,
    depth: usize,
    quiet: bool,
)
    requires
        same_shape(dialect, left, right),
    ensures
        marks(walk_signals(dialect, left, depth, quiet)) == marks(
            walk_signals(dialect, right, depth, quiet),
        ),
    decreases left, steps(dialect, left, depth, quiet).len() + 1,
{
    let list = steps(dialect, left, depth, quiet);
    lemma_same_own(dialect, left, right, depth);
    lemma_same_steps(dialect, left, right, depth, quiet);
    assert(list == steps(dialect, right, depth, quiet));
    lemma_same_step_signals(dialect, left, right, list, list.len());
    let own = |node: SyntaxNode|
        if quiet {
            Seq::<Signal>::empty()
        } else {
            own_signals(dialect, node, depth)
        };
    lemma_marks_concat(own(left), step_signals(dialect, left, list, list.len()));
    lemma_marks_concat(own(right), step_signals(dialect, right, list, list.len()));
    assert(marks(own(left)) =~= marks(own(right)));
}

proof fn lemma_same_step_signals(
    dialect: Dialect,
    left: SyntaxNode,
    right: SyntaxNode,
    list: Seq<Step>,
    count: nat,
)
    requires
        same_shape(dialect, left, right),
        count <= list.len(),
    ensures
        marks(step_signals(dialect, left, list, count)) == marks(
            step_signals(dialect, right, list, count),
        ),
    decreases left, count,
{
    if count > 0 {
        lemma_same_step_signals(dialect, left, right, list, (count - 1) as nat);
        let step = list[count - 1];
        if step.child < left.children@.len() {
            let first = left.children@[step.child as int];
            let second = right.children@[step.child as int];
            lemma_same_part(dialect, left, right, left.children@.len(), step.child as int);
            lemma_same_signals(dialect, first, second, step.depth, step.quiet);
            let opened = |node: SyntaxNode|
                if step.branch {
                    seq![
                        Signal {
                            kind: SignalKind::Branch,
                            depth: step.depth,
                            start: node.start,
                            end: node.end,
                        },
                    ]
                } else {
                    Seq::<Signal>::empty()
                };
            let earlier = |node: SyntaxNode|
                step_signals(dialect, node, list, (count - 1) as nat);
            let rest = |node: SyntaxNode|
                walk_signals(dialect, node, step.depth, step.quiet);
            assert(marks(opened(first)) =~= marks(opened(second)));
            lemma_marks_concat(earlier(left), opened(first));
            lemma_marks_concat(earlier(right), opened(second));
            lemma_marks_concat(earlier(left) + opened(first), rest(first));
            lemma_marks_concat(earlier(right) + opened(second), rest(second));
        }
    }
}

proof fn lemma_scored_from_marks(first: Seq<Signal>, second: Seq<Signal>, count: nat)
    requires
        marks(first) == marks(second),
        count <= first.len(),
    ensures
        scored_marks(first, count) == scored_marks(second, count),
        first.len() == second.len(),
    decreases count,
{
    assert(marks(first).len() == first.len());
    assert(marks(second).len() == second.len());
    if count > 0 {
        lemma_scored_from_marks(first, second, (count - 1) as nat);
        let kept = marks(first)[count - 1];
        assert(kept == Mark { kind: first[count - 1].kind, depth: first[count - 1].depth });
        assert(marks(second)[count - 1] == Mark {
            kind: second[count - 1].kind,
            depth: second[count - 1].depth,
        });
    }
}

/// Because the score measures the structure of expressions rather than how
/// names are spelled, renaming and laying out anew leave the score of a callable
/// as it is.
pub proof fn renaming_keeps_the_score(
    dialect: Dialect,
    before: SyntaxNode,
    after: SyntaxNode,
    first_metrics: Metrics,
    second_metrics: Metrics,
    first_score: Score,
    second_score: Score,
    first_lines: usize,
    second_lines: usize,
    parameters: usize,
    explicit_parameters: usize,
)
    requires
        same_shape(dialect, before, after),
        measures(
            first_metrics,
            signals(dialect, before, 0),
            first_lines,
            parameters,
            explicit_parameters,
        ),
        measures(
            second_metrics,
            signals(dialect, after, 0),
            second_lines,
            parameters,
            explicit_parameters,
        ),
        scores(first_score, first_metrics),
        scores(second_score, second_metrics),
    ensures
        first_score.value == second_score.value,
        first_metrics.expression_operations == second_metrics.expression_operations,
{
    let first = signals(dialect, before, 0);
    let second = signals(dialect, after, 0);
    lemma_same_signals(dialect, before, after, 0, false);
    lemma_scored_from_marks(first, second, first.len());
    only_scored_signals_count(
        first,
        second,
        first_metrics,
        second_metrics,
        first_score,
        second_score,
        first_lines,
        second_lines,
        parameters,
        parameters,
        explicit_parameters,
    );
    lemma_scored_counts(first, SignalKind::Operation, first.len());
    lemma_scored_counts(second, SignalKind::Operation, second.len());
}

/// Naming an intermediate expression adds a statement, which is not scored,
/// and nothing else: the expression keeps its own signals and its depth.
pub proof fn a_binding_adds_one_unscored_statement(binding: SyntaxNode, depth: usize)
    requires
        binding.named("StmtLocal"@),
        binding.children@.len() == 2,
        binding.children@[0].named("PatIdent"@),
        !binding.children@[0].flag,
        binding.children@[0].children@.len() == 0,
        !binding.children@[1].named("Attribute"@),
    ensures
        signals(Dialect::Rust, binding, depth) == seq![
            Signal {
                kind: SignalKind::Statement,
                depth,
                start: binding.start,
                end: binding.end,
            },
        ] + signals(Dialect::Rust, binding.children@[1], depth),
{
    reveal_strlit("ExprIf");
    reveal_strlit("ExprMatch");
    reveal_strlit("ExprLoop");
    reveal_strlit("ExprForLoop");
    reveal_strlit("ExprWhile");
    reveal_strlit("Arm");
    reveal_strlit("ExprBinary");
    reveal_strlit("ExprUnary");
    reveal_strlit("ExprIndex");
    reveal_strlit("ExprCast");
    reveal_strlit("ExprAssign");
    reveal_strlit("ExprReference");
    reveal_strlit("ExprClosure");
    reveal_strlit("ExprReturn");
    reveal_strlit("ExprUnsafe");
    reveal_strlit("ExprMacro");
    reveal_strlit("PatMacro");
    reveal_strlit("ExprCall");
    reveal_strlit("ExprMethodCall");
    reveal_strlit("StmtExpr");
    reveal_strlit("StmtMacro");
    reveal_strlit("StmtItem");
    reveal_strlit("StmtLocal");
    reveal_strlit("PatIdent");
    reveal_strlit("Attribute");
    let pattern = binding.children@[0];
    let value = binding.children@[1];
    reveal_with_fuel(named_count, 3);
    reveal_with_fuel(rust_part_steps, 3);
    reveal_with_fuel(step_signals, 3);
    assert("StmtLocal"@[0] == 'S' && "ExprIf"@[0] == 'E' && "Arm"@[0] == 'A');
    assert("StmtLocal"@[4] == 'L' && "StmtExpr"@[4] == 'E' && "StmtMacro"@[4] == 'M'
        && "StmtItem"@[4] == 'I');
    assert("PatIdent"@[3] == 'I' && "PatMacro"@[3] == 'M');
    assert(attribute_count(binding) == 0);
    assert(!let_else(binding));
    assert(signals(Dialect::Rust, pattern, depth) =~= Seq::<Signal>::empty());
    let list = rust_steps(binding, depth);
    let plain = |child: usize| Step { child, depth, branch: false, quiet: false };
    assert(list =~= seq![plain(0), plain(1)]);
    assert(rust_own(binding, depth) == seq![
        node_signal(SignalKind::Statement, binding, depth),
    ]);
    assert(step_signals(Dialect::Rust, binding, list, 0) =~= Seq::<Signal>::empty());
    assert(step_signals(Dialect::Rust, binding, list, 1) =~= Seq::<Signal>::empty());
    assert(step_signals(Dialect::Rust, binding, list, 2) =~= signals(Dialect::Rust, value, depth));
    assert(signals(Dialect::Rust, binding, depth) =~= rust_own(binding, depth) + step_signals(
        Dialect::Rust,
        binding,
        list,
        2,
    ));
}

/// Whether two nodes are the same but for their parts.
pub open spec fn same_outside(left: SyntaxNode, right: SyntaxNode) -> bool {
    left.kind@ == right.kind@ && left.text@ == right.text@ && operator(left) == operator(right)
        && left.flag == right.flag && left.start == right.start && left.end == right.end
}

/// Nested items and closures of Rust source own their bodies: what stands in
/// them makes no difference to the callable around them.
pub proof fn rust_callables_own_their_bodies(left: SyntaxNode, right: SyntaxNode, depth: usize)
    requires
        rust_closed_off(left),
        same_outside(left, right),
    ensures
        signals(Dialect::Rust, left, depth) == signals(Dialect::Rust, right, depth),
{
    reveal_strlit("ExprClosure");
    reveal_strlit("StmtItem");
    reveal_strlit("ExprMatch");
    reveal_strlit("Arm");
    reveal_strlit("StmtLocal");
    assert("ExprClosure"@[4] == 'C' && "ExprMatch"@[4] == 'M');
    assert("StmtItem"@[4] == 'I' && "StmtLocal"@[4] == 'L' && "Arm"@.len() == 3);
    assert("ExprClosure"@[0] == 'E' && "StmtItem"@[0] == 'S' && "StmtLocal"@[0] == 'S'
        && "ExprMatch"@[0] == 'E');
    let none = Seq::<Step>::empty();
    assert(step_signals(Dialect::Rust, left, none, 0) == step_signals(
        Dialect::Rust,
        right,
        none,
        0,
    ));
    assert(rust_own(left, depth) == rust_own(right, depth));
}

/// Functions, arrow functions and classes of JavaScript and TypeScript source
/// own their bodies: what stands in them makes no difference to the callable
/// around them.
pub proof fn javascript_callables_own_their_bodies(
    left: SyntaxNode,
    right: SyntaxNode,
    depth: usize,
)
    requires
        closed_off(left),
        same_outside(left, right),
    ensures
        signals(Dialect::JavaScript, left, depth) == signals(Dialect::JavaScript, right, depth),
{
    reveal_strlit("Function");
    reveal_strlit("ImportDeclaration");
    reveal_strlit("ExportNamedDeclaration");
    reveal_strlit("ExportFromDeclaration");
    reveal_strlit("ExportAllDeclaration");
    reveal_strlit("TSTypeAliasDeclaration");
    reveal_strlit("TSInterfaceDeclaration");
    reveal_strlit("TSEnumDeclaration");
    reveal_strlit("TSModuleDeclaration");
    reveal_strlit("TSGlobalDeclaration");
    reveal_strlit("TSImportEqualsDeclaration");
    reveal_strlit("ArrowFunctionExpression");
    reveal_strlit("Class");
    reveal_strlit("ExportDefaultDeclaration");
    reveal_strlit("SwitchStatement");
    reveal_strlit("SequenceExpression");
    assert("SwitchStatement"@[0] == 'S' && "SequenceExpression"@[0] == 'S');
    assert("Function"@[0] == 'F' && "Class"@[0] == 'C' && "ImportDeclaration"@[0] == 'I');
    let none = Seq::<Step>::empty();
    assert(step_signals(Dialect::JavaScript, left, none, 0) == step_signals(
        Dialect::JavaScript,
        right,
        none,
        0,
    ));
    assert(javascript_own(left, depth) == javascript_own(right, depth));
}

proof fn lemma_header_steps(parts: Seq<SyntaxNode>, depth: usize, count: nat, index: int)
    requires
        0 <= index < header_steps(parts, depth, count).len(),
        count <= parts.len(),
        parts.len() <= usize::MAX,
    ensures
        header_steps(parts, depth, count)[index].child < count,
        !parts[header_steps(parts, depth, count)[index].child as int].named("Body"@),
    decreases count,
{
    if count > 0 {
        let earlier = header_steps(parts, depth, (count - 1) as nat);
        if index < earlier.len() {
            lemma_header_steps(parts, depth, (count - 1) as nat, index);
        }
    }
}

/// Functions and classes of Python source own their bodies: a walk of what is
/// around one goes into its decorators, parameters and bases, never into its
/// statements.
pub proof fn python_definitions_own_their_bodies(node: SyntaxNode, depth: usize, index: int)
    requires
        node.named("StmtFunctionDef"@) || node.named("StmtClassDef"@),
        node.children@.len() <= usize::MAX,
        0 <= index < steps(Dialect::Python, node, depth, false).len(),
    ensures
        ({
            let child = steps(Dialect::Python, node, depth, false)[index].child;
            child < node.children@.len() && !node.children@[child as int].named("Body"@)
        }),
{
    lemma_header_steps(node.children@, depth, node.children@.len(), index);
}

/// Lambdas of Python source own their bodies: a walk of what is around one goes
/// into its parameters alone.
pub proof fn python_lambdas_own_their_bodies(node: SyntaxNode, depth: usize, index: int)
    requires
        node.named("ExprLambda"@),
        0 <= index < steps(Dialect::Python, node, depth, false).len(),
    ensures
        ({
            let child = steps(Dialect::Python, node, depth, false)[index].child;
            child < node.children@.len() && node.children@[child as int].named("Parameters"@)
        }),
{
    reveal_strlit("ExprLambda");
    reveal_strlit("StmtFunctionDef");
    reveal_strlit("StmtClassDef");
    assert("ExprLambda"@[0] == 'E' && "StmtFunctionDef"@[0] == 'S' && "StmtClassDef"@[0] == 'S');
}

}
