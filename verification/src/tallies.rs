//! What signals come to, added up, and how depth bears on it.
use vstd::prelude::*;
use crate::javascript_syntax::{javascript_own, javascript_part_steps, javascript_particular};
use crate::model::Metrics;
use crate::node_signals::part_signals;
use crate::python_syntax::{
    body_steps, comprehension_steps, evaluated_steps, header_steps, picked_steps, python_own,
    python_particular, python_steps, swapped_steps,
};
use crate::rust_syntax::{rust_own, rust_part_steps};
use crate::signals::{deeper, deepest, measures, nesting, signal_count, Signal, SignalKind};
use crate::syntax::SyntaxNode;
use crate::walk::{
    own_signals, plain_steps, signals, step_signals, steps, walk_signals, Dialect, Step,
};

verus! {

/// How many signals there are of each kind, the depths of the decisions added up,
/// and how deep the deepest branch opens.
pub struct Tally {
    pub statements: nat,
    pub branches: nat,
    pub guards: nat,
    pub loops: nat,
    pub operations: nat,
    pub operators: nat,
    pub calls: nat,
    pub arms: nat,
    pub mutations: nat,
    pub returns: nat,
    pub closures: nat,
    pub macros: nat,
    pub unsafe_blocks: nat,
    pub nesting: nat,
    pub depth: nat,
}

impl Tally {
    /// Nothing at all.
    pub open spec fn none() -> Tally {
        Tally {
            statements: 0,
            branches: 0,
            guards: 0,
            loops: 0,
            operations: 0,
            operators: 0,
            calls: 0,
            arms: 0,
            mutations: 0,
            returns: 0,
            closures: 0,
            macros: 0,
            unsafe_blocks: 0,
            nesting: 0,
            depth: 0,
        }
    }

    /// Both together.
    pub open spec fn plus(self, other: Tally) -> Tally {
        Tally {
            statements: self.statements + other.statements,
            branches: self.branches + other.branches,
            guards: self.guards + other.guards,
            loops: self.loops + other.loops,
            operations: self.operations + other.operations,
            operators: self.operators + other.operators,
            calls: self.calls + other.calls,
            arms: self.arms + other.arms,
            mutations: self.mutations + other.mutations,
            returns: self.returns + other.returns,
            closures: self.closures + other.closures,
            macros: self.macros + other.macros,
            unsafe_blocks: self.unsafe_blocks + other.unsafe_blocks,
            nesting: self.nesting + other.nesting,
            depth: if self.depth > other.depth {
                self.depth
            } else {
                other.depth
            },
        }
    }

    /// The same some levels further in: each decision is that much deeper.
    pub open spec fn under(self, levels: nat) -> Tally {
        Tally {
            nesting: self.nesting + levels * (self.branches + self.guards),
            depth: if self.branches > 0 {
                self.depth + levels
            } else {
                self.depth
            },
            ..self
        }
    }
}

/// What metrics say of the signals that they come from.
pub open spec fn tally_of(metrics: Metrics) -> Tally {
    Tally {
        statements: metrics.statements as nat,
        branches: metrics.branches as nat,
        guards: (metrics.control_decisions - metrics.branches) as nat,
        loops: metrics.loops as nat,
        operations: metrics.expression_operations as nat,
        operators: metrics.boolean_operators as nat,
        calls: metrics.call_sites as nat,
        arms: metrics.match_arms as nat,
        mutations: metrics.mutations as nat,
        returns: metrics.returns as nat,
        closures: metrics.closures as nat,
        macros: metrics.macro_calls as nat,
        unsafe_blocks: metrics.unsafe_blocks as nat,
        nesting: metrics.nesting_penalty as nat,
        depth: metrics.max_depth as nat,
    }
}

/// Whether metrics are those of a syntax tree that is measured by itself.
pub open spec fn measured(dialect: Dialect, node: SyntaxNode, metrics: Metrics) -> bool {
    measures(
        metrics,
        signals(dialect, node, 0),
        metrics.code_lines,
        metrics.parameters,
        metrics.explicit_parameters,
    )
}

/// What the first `count` parts come to, each at so many levels.
pub open spec fn gathered(parts: Seq<Metrics>, levels: spec_fn(int) -> nat, count: nat) -> Tally
    decreases count,
{
    if count == 0 {
        Tally::none()
    } else {
        gathered(parts, levels, (count - 1) as nat).plus(
            tally_of(parts[count - 1]).under(levels(count - 1)),
        )
    }
}

/// Whether metrics are `own` and those of parts, each at so many levels. Nothing
/// is claimed where the nesting penalty exceeds the range of its type.
pub open spec fn made_of(
    whole: Metrics,
    own: Tally,
    parts: Seq<Metrics>,
    levels: spec_fn(int) -> nat,
) -> bool {
    let sum = own.plus(gathered(parts, levels, parts.len()));
    sum.nesting < usize::MAX ==> tally_of(whole) == sum
}

/// What one signal comes to.
pub(crate) open spec fn single(signal: Signal) -> Tally {
    let none = Tally::none();
    match signal.kind {
        SignalKind::Statement => Tally { statements: 1, ..none },
        SignalKind::Branch => Tally {
            branches: 1,
            nesting: signal.depth as nat,
            depth: signal.depth as nat + 1,
            ..none
        },
        SignalKind::Guard => Tally { guards: 1, nesting: signal.depth as nat, ..none },
        SignalKind::Loop => Tally { loops: 1, ..none },
        SignalKind::Operation => Tally { operations: 1, ..none },
        SignalKind::BooleanOperator => Tally { operators: 1, ..none },
        SignalKind::CallSite => Tally { calls: 1, ..none },
        SignalKind::MatchArm => Tally { arms: 1, ..none },
        SignalKind::Mutation => Tally { mutations: 1, ..none },
        SignalKind::Return => Tally { returns: 1, ..none },
        SignalKind::Closure => Tally { closures: 1, ..none },
        SignalKind::MacroCall => Tally { macros: 1, ..none },
        SignalKind::UnsafeBlock => Tally { unsafe_blocks: 1, ..none },
    }
}

/// What the first `count` signals come to.
pub(crate) open spec fn tallied_upto(list: Seq<Signal>, count: nat) -> Tally
    decreases count,
{
    if count == 0 {
        Tally::none()
    } else {
        tallied_upto(list, (count - 1) as nat).plus(single(list[count - 1]))
    }
}

/// What signals come to.
pub(crate) open spec fn tallied(list: Seq<Signal>) -> Tally {
    tallied_upto(list, list.len())
}

proof fn lemma_tallied_prefix(left: Seq<Signal>, whole: Seq<Signal>, count: nat)
    requires
        count <= left.len() <= whole.len(),
        forall|index: int| 0 <= index < left.len() ==> left[index] == whole[index],
    ensures
        tallied_upto(left, count) == tallied_upto(whole, count),
    decreases count,
{
    if count > 0 {
        lemma_tallied_prefix(left, whole, (count - 1) as nat);
    }
}

proof fn lemma_tallied_upto(left: Seq<Signal>, right: Seq<Signal>, count: nat)
    requires
        count <= right.len(),
    ensures
        tallied_upto(left + right, left.len() + count) == tallied(left).plus(
            tallied_upto(right, count),
        ),
    decreases count,
{
    if count == 0 {
        lemma_tallied_prefix(left, left + right, left.len());
    } else {
        lemma_tallied_upto(left, right, (count - 1) as nat);
        assert((left + right)[left.len() + count - 1] == right[count - 1]);
    }
}

pub(crate) proof fn lemma_tallied_concat(left: Seq<Signal>, right: Seq<Signal>)
    ensures
        tallied(left + right) == tallied(left).plus(tallied(right)),
{
    lemma_tallied_upto(left, right, right.len());
}

pub(crate) proof fn lemma_tallied_one(signal: Signal)
    ensures
        tallied(seq![signal]) == single(signal),
{
    reveal_with_fuel(tallied_upto, 2);
}

pub(crate) proof fn lemma_tallied_two(first: Signal, second: Signal)
    ensures
        tallied(seq![first, second]) == single(first).plus(single(second)),
{
    reveal_with_fuel(tallied_upto, 3);
}

/// Whether the depths of signals are in range one level further in.
spec fn room(list: Seq<Signal>) -> bool {
    forall|index: int|
        0 <= index < list.len() && ((#[trigger] list[index]).kind == SignalKind::Branch
            || list[index].kind == SignalKind::Guard) ==> list[index].depth < usize::MAX
}

proof fn lemma_depth_bounded(list: Seq<Signal>, count: nat, index: int)
    requires
        count <= list.len(),
        0 <= index < count,
        list[index].kind == SignalKind::Branch || list[index].kind == SignalKind::Guard,
    ensures
        list[index].depth <= tallied_upto(list, count).nesting,
    decreases count,
{
    if index < count - 1 {
        lemma_depth_bounded(list, (count - 1) as nat, index);
    }
}

proof fn lemma_room(list: Seq<Signal>)
    requires
        tallied(list).nesting < usize::MAX,
    ensures
        room(list),
{
    assert forall|index: int|
        0 <= index < list.len() && ((#[trigger] list[index]).kind == SignalKind::Branch
            || list[index].kind == SignalKind::Guard) implies list[index].depth < usize::MAX by {
        lemma_depth_bounded(list, list.len(), index);
    }
}

proof fn lemma_counts(list: Seq<Signal>, count: nat)
    requires
        count <= list.len(),
        room(list),
    ensures
        ({
            let sum = tallied_upto(list, count);
            &&& sum.statements == signal_count(list, SignalKind::Statement, count)
            &&& sum.branches == signal_count(list, SignalKind::Branch, count)
            &&& sum.guards == signal_count(list, SignalKind::Guard, count)
            &&& sum.loops == signal_count(list, SignalKind::Loop, count)
            &&& sum.operations == signal_count(list, SignalKind::Operation, count)
            &&& sum.operators == signal_count(list, SignalKind::BooleanOperator, count)
            &&& sum.calls == signal_count(list, SignalKind::CallSite, count)
            &&& sum.arms == signal_count(list, SignalKind::MatchArm, count)
            &&& sum.mutations == signal_count(list, SignalKind::Mutation, count)
            &&& sum.returns == signal_count(list, SignalKind::Return, count)
            &&& sum.closures == signal_count(list, SignalKind::Closure, count)
            &&& sum.macros == signal_count(list, SignalKind::MacroCall, count)
            &&& sum.unsafe_blocks == signal_count(list, SignalKind::UnsafeBlock, count)
            &&& sum.nesting == nesting(list, count)
            &&& sum.depth == deepest(list, count)
            &&& sum.branches == 0 ==> sum.depth == 0
        }),
    decreases count,
{
    if count > 0 {
        lemma_counts(list, (count - 1) as nat);
        assert(list[count - 1].kind == SignalKind::Branch ==> list[count - 1].depth < usize::MAX);
    }
}

proof fn lemma_nesting_alone(list: Seq<Signal>, count: nat)
    requires
        count <= list.len(),
    ensures
        tallied_upto(list, count).nesting == nesting(list, count),
    decreases count,
{
    if count > 0 {
        lemma_nesting_alone(list, (count - 1) as nat);
    }
}

/// Metrics are what the signals come to, unless the nesting penalty exceeds the
/// range of its type.
pub(crate) proof fn lemma_measured(
    metrics: Metrics,
    list: Seq<Signal>,
    code_lines: usize,
    parameters: usize,
    explicit_parameters: usize,
)
    requires
        measures(metrics, list, code_lines, parameters, explicit_parameters),
    ensures
        metrics.nesting_penalty < usize::MAX || tallied(list).nesting < usize::MAX ==> tally_of(
            metrics,
        ) == tallied(list),
        metrics.nesting_penalty < usize::MAX <==> tallied(list).nesting < usize::MAX,
{
    lemma_nesting_alone(list, list.len());
    if tallied(list).nesting < usize::MAX {
        lemma_room(list);
        lemma_counts(list, list.len());
    }
}

proof fn lemma_no_branch(list: Seq<Signal>, count: nat)
    requires
        count <= list.len(),
    ensures
        tallied_upto(list, count).branches == 0 ==> tallied_upto(list, count).depth == 0,
    decreases count,
{
    if count > 0 {
        lemma_no_branch(list, (count - 1) as nat);
    }
}

pub(crate) proof fn lemma_no_branch_no_depth(list: Seq<Signal>)
    ensures
        tallied(list).branches == 0 ==> tallied(list).depth == 0,
{
    lemma_no_branch(list, list.len());
}

/// Signals one level further in.
spec fn raised(list: Seq<Signal>) -> Seq<Signal> {
    list.map_values(
        |signal: Signal|
            Signal { depth: deeper(signal.depth), ..signal },
    )
}

/// Steps one level further in.
spec fn raised_steps(list: Seq<Step>) -> Seq<Step> {
    list.map_values(|step: Step| Step { depth: deeper(step.depth), ..step })
}

proof fn lemma_raised_concat(left: Seq<Signal>, right: Seq<Signal>)
    ensures
        raised(left + right) == raised(left) + raised(right),
{
    assert(raised(left + right) =~= raised(left) + raised(right));
}

proof fn lemma_parts_raised(
    kind: SignalKind,
    parts: Seq<SyntaxNode>,
    name: Seq<char>,
    depth: usize,
    count: nat,
)
    ensures
        part_signals(kind, parts, name, deeper(depth), count) == raised(
            part_signals(kind, parts, name, depth, count),
        ),
    decreases count,
{
    if count > 0 {
        lemma_parts_raised(kind, parts, name, depth, (count - 1) as nat);
    }
    assert(part_signals(kind, parts, name, deeper(depth), count) =~= raised(
        part_signals(kind, parts, name, depth, count),
    ));
}

proof fn lemma_own_raised(dialect: Dialect, node: SyntaxNode, depth: usize)
    ensures
        own_signals(dialect, node, deeper(depth)) == raised(
            own_signals(dialect, node, depth),
        ),
{
    let parts = node.children@;
    let inside = deeper(depth);
    lemma_parts_raised(SignalKind::MatchArm, parts, "Arm"@, depth, parts.len());
    lemma_parts_raised(SignalKind::MatchArm, parts, "MatchCase"@, depth, parts.len());
    lemma_parts_raised(SignalKind::MatchArm, parts, "SwitchCase"@, depth, parts.len());
    lemma_parts_raised(SignalKind::Operation, parts, "WithItem"@, depth, parts.len());
    match dialect {
        Dialect::Rust => {
            assert(rust_own(node, inside) =~= raised(rust_own(node, depth)));
        },
        Dialect::JavaScript => {
            assert(javascript_particular(node, inside) =~= raised(
                javascript_particular(node, depth),
            ));
            assert(javascript_own(node, inside) =~= raised(javascript_own(node, depth)));
        },
        Dialect::Python => {
            assert(python_particular(node, inside) =~= raised(python_particular(node, depth)));
            assert(python_own(node, inside) =~= raised(python_own(node, depth)));
        },
    }
}

proof fn lemma_rust_steps_raised(node: SyntaxNode, depth: usize, count: nat)
    ensures
        rust_part_steps(node, deeper(depth), count) == raised_steps(
            rust_part_steps(node, depth, count),
        ),
    decreases count,
{
    if count > 0 {
        lemma_rust_steps_raised(node, depth, (count - 1) as nat);
    }
    assert(rust_part_steps(node, deeper(depth), count) =~= raised_steps(
        rust_part_steps(node, depth, count),
    ));
}

proof fn lemma_script_steps_raised(node: SyntaxNode, depth: usize, count: nat)
    ensures
        javascript_part_steps(node, deeper(depth), count) == raised_steps(
            javascript_part_steps(node, depth, count),
        ),
    decreases count,
{
    if count > 0 {
        lemma_script_steps_raised(node, depth, (count - 1) as nat);
    }
    assert(javascript_part_steps(node, deeper(depth), count) =~= raised_steps(
        javascript_part_steps(node, depth, count),
    ));
}

proof fn lemma_header_raised(parts: Seq<SyntaxNode>, depth: usize, count: nat)
    ensures
        header_steps(parts, deeper(depth), count) == raised_steps(
            header_steps(parts, depth, count),
        ),
    decreases count,
{
    if count > 0 {
        lemma_header_raised(parts, depth, (count - 1) as nat);
    }
    assert(header_steps(parts, deeper(depth), count) =~= raised_steps(
        header_steps(parts, depth, count),
    ));
}

proof fn lemma_picked_raised(
    parts: Seq<SyntaxNode>,
    kind: Seq<char>,
    wanted: bool,
    quiet: bool,
    depth: usize,
    count: nat,
)
    ensures
        picked_steps(parts, kind, wanted, quiet, deeper(depth), count)
            == raised_steps(picked_steps(parts, kind, wanted, quiet, depth, count)),
    decreases count,
{
    if count > 0 {
        lemma_picked_raised(parts, kind, wanted, quiet, depth, (count - 1) as nat);
    }
    assert(picked_steps(parts, kind, wanted, quiet, deeper(depth), count)
        =~= raised_steps(picked_steps(parts, kind, wanted, quiet, depth, count)));
}

proof fn lemma_evaluated_raised(node: SyntaxNode, depth: usize, quiet: bool)
    ensures
        evaluated_steps(node, deeper(depth), quiet) == raised_steps(
            evaluated_steps(node, depth, quiet),
        ),
{
    let parts = node.children@;
    let inside = deeper(depth);
    lemma_picked_raised(parts, "ParameterWithDefault"@, true, true, depth, parts.len());
    lemma_picked_raised(parts, "Keyword"@, false, false, depth, parts.len());
    lemma_picked_raised(parts, "Keyword"@, true, false, depth, parts.len());
    assert(evaluated_steps(node, inside, quiet) =~= raised_steps(
        evaluated_steps(node, depth, quiet),
    ));
}

proof fn lemma_comprehension_raised(parts: Seq<SyntaxNode>, depth: usize)
    ensures
        comprehension_steps(parts, deeper(depth)) == raised_steps(
            comprehension_steps(parts, depth),
        ),
{
    assert(comprehension_steps(parts, deeper(depth)) =~= raised_steps(
        comprehension_steps(parts, depth),
    ));
}

proof fn lemma_bodies_raised(parts: Seq<SyntaxNode>, inside: usize, outside: usize)
    ensures
        body_steps(parts, deeper(inside), deeper(outside))
            == raised_steps(body_steps(parts, inside, outside)),
{
    assert(body_steps(parts, deeper(inside), deeper(outside))
        =~= raised_steps(body_steps(parts, inside, outside)));
}

proof fn lemma_swapped_raised(count: nat, depth: usize, rest: usize, branch: bool)
    requires
        count >= 2,
    ensures
        swapped_steps(
            count,
            deeper(depth),
            deeper(rest),
            branch,
        ) == raised_steps(swapped_steps(count, depth, rest, branch)),
{
    assert(swapped_steps(
        count,
        deeper(depth),
        deeper(rest),
        branch,
    ) =~= raised_steps(swapped_steps(count, depth, rest, branch)));
}

proof fn lemma_plain_raised(count: nat, depth: usize)
    ensures
        plain_steps(count, deeper(depth)) == raised_steps(
            plain_steps(count, depth),
        ),
{
    assert(plain_steps(count, deeper(depth)) =~= raised_steps(
        plain_steps(count, depth),
    ));
}

#[verifier::spinoff_prover]
#[verifier::rlimit(60)]
proof fn lemma_python_steps_raised(node: SyntaxNode, depth: usize, quiet: bool)
    ensures
        python_steps(node, deeper(depth), quiet, false) == raised_steps(
            python_steps(node, depth, quiet, false),
        ),
{
    let parts = node.children@;
    let inside = deeper(depth);
    lemma_header_raised(parts, depth, parts.len());
    lemma_evaluated_raised(node, depth, quiet);
    lemma_comprehension_raised(parts, depth);
    lemma_bodies_raised(parts, inside, depth);
    lemma_plain_raised(parts.len(), depth);
    if parts.len() >= 2 {
        lemma_swapped_raised(parts.len(), depth, inside, false);
        lemma_swapped_raised(parts.len(), depth, inside, true);
        lemma_swapped_raised(parts.len(), depth, depth, false);
    }
    let higher = python_steps(node, inside, quiet, false);
    let lower = raised_steps(python_steps(node, depth, quiet, false));
    if node.named("StmtFunctionDef"@) || node.named("StmtClassDef"@) {
    } else if node.named("ExprLambda"@) {
        assert(higher =~= lower);
    } else if node.named("StmtIf"@) || node.named("ElifElseClause"@) || node.named("StmtWhile"@)
        || node.named("StmtTry"@) || node.named("ExceptHandlerExceptHandler"@) {
    } else if node.named("StmtFor"@) || node.named("Comprehension"@) || node.named(
        "StmtAugAssign"@,
    ) || node.named("StmtAnnAssign"@) || node.named("ExprNamed"@) {
    } else if node.named("StmtMatch"@) {
        assert(higher =~= lower);
    } else if node.named("MatchCase"@) {
        assert(higher =~= lower);
    } else if node.named("StmtAssign"@) {
        if parts.len() > 0 {
            lemma_plain_raised((parts.len() - 1) as nat, depth);
            assert(higher =~= lower);
        }
    } else if node.named("ExprIf"@) {
        if parts.len() == 3 {
            assert(higher =~= lower);
        }
    }
}

proof fn lemma_steps_raised(dialect: Dialect, node: SyntaxNode, depth: usize, quiet: bool)
    ensures
        steps(dialect, node, deeper(depth), quiet) == raised_steps(
            steps(dialect, node, depth, quiet),
        ),
{
    let parts = node.children@;
    let inside = deeper(depth);
    match dialect {
        Dialect::Rust => {
            lemma_rust_steps_raised(node, depth, parts.len());
            assert(Seq::<Step>::empty() =~= raised_steps(Seq::<Step>::empty()));
        },
        Dialect::JavaScript => {
            lemma_script_steps_raised(node, depth, parts.len());
            assert(Seq::<Step>::empty() =~= raised_steps(Seq::<Step>::empty()));
        },
        Dialect::Python => lemma_python_steps_raised(node, depth, quiet),
    }
}

proof fn lemma_walk_raised(dialect: Dialect, node: SyntaxNode, depth: usize, quiet: bool)
    ensures
        walk_signals(dialect, node, deeper(depth), quiet) == raised(
            walk_signals(dialect, node, depth, quiet),
        ),
    decreases node, steps(dialect, node, depth, quiet).len() + 1,
{
    let list = steps(dialect, node, depth, quiet);
    let own = own_signals(dialect, node, depth);
    lemma_own_raised(dialect, node, depth);
    lemma_steps_raised(dialect, node, depth, quiet);
    lemma_step_signals_raised(dialect, node, list, list.len());
    assert(raised(Seq::<Signal>::empty()) =~= Seq::<Signal>::empty());
    lemma_raised_concat(own, step_signals(dialect, node, list, list.len()));
    lemma_raised_concat(
        Seq::<Signal>::empty(),
        step_signals(dialect, node, list, list.len()),
    );
}

proof fn lemma_step_signals_raised(
    dialect: Dialect,
    node: SyntaxNode,
    list: Seq<Step>,
    count: nat,
)
    requires
        count <= list.len(),
    ensures
        step_signals(dialect, node, raised_steps(list), count) == raised(
            step_signals(dialect, node, list, count),
        ),
    decreases node, count,
{
    assert(raised(Seq::<Signal>::empty()) =~= Seq::<Signal>::empty());
    if count > 0 {
        lemma_step_signals_raised(dialect, node, list, (count - 1) as nat);
        let step = list[count - 1];
        let earlier = step_signals(dialect, node, list, (count - 1) as nat);
        if step.child < node.children@.len() {
            let child = node.children@[step.child as int];
            lemma_walk_raised(dialect, child, step.depth, step.quiet);
            let opened: Seq<Signal> = if step.branch {
                seq![
                    Signal {
                        kind: SignalKind::Branch,
                        depth: step.depth,
                        start: child.start,
                        end: child.end,
                    },
                ]
            } else {
                Seq::empty()
            };
            let inner = walk_signals(dialect, child, step.depth, step.quiet);
            lemma_raised_concat(earlier, opened);
            lemma_raised_concat(earlier + opened, inner);
            let other = step_signals(dialect, node, raised_steps(list), count);
            assert(other =~= raised(earlier) + raised(opened) + raised(inner));
        }
    }
}

proof fn lemma_tallied_raised(list: Seq<Signal>, count: nat)
    requires
        room(list),
        count <= list.len(),
    ensures
        tallied_upto(raised(list), count) == tallied_upto(list, count).under(1),
        tallied_upto(list, count).branches == 0 ==> tallied_upto(list, count).depth == 0,
    decreases count,
{
    if count > 0 {
        lemma_tallied_raised(list, (count - 1) as nat);
        let kind = list[count - 1].kind;
        assert(kind == SignalKind::Branch || kind == SignalKind::Guard ==> list[count - 1].depth
            < usize::MAX);
        let before = tallied_upto(list, (count - 1) as nat);
        let one = single(list[count - 1]);
        assert(single(raised(list)[count - 1]) == one.under(1));
        assert(before.plus(one).under(1) == before.under(1).plus(one.under(1)));
    }
}

/// What a tree comes to some levels further in.
pub(crate) proof fn lemma_under(dialect: Dialect, node: SyntaxNode, levels: usize, quiet: bool)
    requires
        ({
            let base = tallied(walk_signals(dialect, node, 0, quiet));
            base.under(levels as nat).nesting < usize::MAX
        }),
    ensures
        tallied(walk_signals(dialect, node, levels, quiet)) == tallied(
            walk_signals(dialect, node, 0, quiet),
        ).under(levels as nat),
    decreases levels,
{
    let base = tallied(walk_signals(dialect, node, 0, quiet));
    if levels > 0 {
        let fewer = (levels - 1) as usize;
        let decisions = base.branches + base.guards;
        assert(levels * decisions == fewer * decisions + decisions) by (nonlinear_arith)
            requires
                levels == fewer + 1,
        ;
        lemma_under(dialect, node, fewer, quiet);
        let inner = walk_signals(dialect, node, fewer, quiet);
        lemma_room(inner);
        lemma_walk_raised(dialect, node, fewer, quiet);
        lemma_tallied_raised(inner, inner.len());
        assert(raised(inner).len() == inner.len());
        assert(base.under(fewer as nat).under(1) == base.under(levels as nat));
    } else {
        assert(0 * (base.branches + base.guards) == 0) by (nonlinear_arith);
        assert(base.under(0) == base);
    }
}

/// What the first `count` steps from a node come to.
pub(crate) open spec fn steps_tally(
    dialect: Dialect,
    node: SyntaxNode,
    list: Seq<Step>,
    count: nat,
) -> Tally
    decreases count,
{
    if count == 0 {
        Tally::none()
    } else {
        let earlier = steps_tally(dialect, node, list, (count - 1) as nat);
        let step = list[count - 1];
        if step.child < node.children@.len() {
            let child = node.children@[step.child as int];
            let opened = if step.branch {
                Tally {
                    branches: 1,
                    nesting: step.depth as nat,
                    depth: step.depth as nat + 1,
                    ..Tally::none()
                }
            } else {
                Tally::none()
            };
            earlier.plus(opened).plus(
                tallied(walk_signals(dialect, child, step.depth, step.quiet)),
            )
        } else {
            earlier
        }
    }
}

pub(crate) proof fn lemma_steps_tally(
    dialect: Dialect,
    node: SyntaxNode,
    list: Seq<Step>,
    count: nat,
)
    requires
        count <= list.len(),
    ensures
        tallied(step_signals(dialect, node, list, count)) == steps_tally(
            dialect,
            node,
            list,
            count,
        ),
    decreases count,
{
    if count > 0 {
        lemma_steps_tally(dialect, node, list, (count - 1) as nat);
        let step = list[count - 1];
        let earlier = step_signals(dialect, node, list, (count - 1) as nat);
        if step.child < node.children@.len() {
            let child = node.children@[step.child as int];
            let inner = walk_signals(dialect, child, step.depth, step.quiet);
            let opening = Signal {
                kind: SignalKind::Branch,
                depth: step.depth,
                start: child.start,
                end: child.end,
            };
            let opened: Seq<Signal> = if step.branch {
                seq![opening]
            } else {
                Seq::empty()
            };
            lemma_tallied_one(opening);
            lemma_tallied_concat(earlier, opened);
            lemma_tallied_concat(earlier + opened, inner);
        }
    }
}

/// What a tree comes to: what it sends itself, and what its parts come to.
pub(crate) proof fn lemma_walk_tally(
    dialect: Dialect,
    node: SyntaxNode,
    depth: usize,
    quiet: bool,
)
    ensures
        ({
            let list = steps(dialect, node, depth, quiet);
            let own = if quiet {
                Tally::none()
            } else {
                tallied(own_signals(dialect, node, depth))
            };
            tallied(walk_signals(dialect, node, depth, quiet)) == own.plus(
                steps_tally(dialect, node, list, list.len()),
            )
        }),
{
    let list = steps(dialect, node, depth, quiet);
    let own = if quiet {
        Seq::<Signal>::empty()
    } else {
        own_signals(dialect, node, depth)
    };
    lemma_steps_tally(dialect, node, list, list.len());
    lemma_tallied_concat(own, step_signals(dialect, node, list, list.len()));
}

/// Whether the parts of a node from a place on are measured, each by itself.
pub open spec fn parts_measured(
    dialect: Dialect,
    node: SyntaxNode,
    front: nat,
    parts: Seq<Metrics>,
) -> bool {
    &&& front + parts.len() == node.children@.len()
    &&& forall|index: int|
        0 <= index < parts.len() ==> measured(
            dialect,
            node.children@[front + index],
            #[trigger] parts[index],
        )
}

pub(crate) proof fn lemma_gathered_grows(
    parts: Seq<Metrics>,
    levels: spec_fn(int) -> nat,
    fewer: nat,
    more: nat,
)
    requires
        fewer <= more,
    ensures
        gathered(parts, levels, fewer).nesting <= gathered(parts, levels, more).nesting,
    decreases more,
{
    if fewer < more {
        lemma_gathered_grows(parts, levels, fewer, (more - 1) as nat);
    }
}

/// What a part comes to that is measured by itself, some levels further in.
pub(crate) proof fn lemma_part_under(
    dialect: Dialect,
    node: SyntaxNode,
    metrics: Metrics,
    levels: usize,
)
    requires
        measured(dialect, node, metrics),
        tally_of(metrics).under(levels as nat).nesting < usize::MAX,
    ensures
        tallied(walk_signals(dialect, node, levels, false)) == tally_of(metrics).under(
            levels as nat,
        ),
{
    let list = signals(dialect, node, 0);
    assert(levels * (tally_of(metrics).branches + tally_of(metrics).guards) >= 0)
        by (nonlinear_arith);
    lemma_measured(
        metrics,
        list,
        metrics.code_lines,
        metrics.parameters,
        metrics.explicit_parameters,
    );
    lemma_under(dialect, node, levels, false);
}

/// The branches that the first `count` steps open.
pub(crate) open spec fn openings(list: Seq<Step>, count: nat) -> Tally
    decreases count,
{
    if count == 0 {
        Tally::none()
    } else {
        openings(list, (count - 1) as nat).plus(
            if list[count - 1].branch {
                Tally {
                    branches: 1,
                    nesting: list[count - 1].depth as nat,
                    depth: list[count - 1].depth as nat + 1,
                    ..Tally::none()
                }
            } else {
                Tally::none()
            },
        )
    }
}

pub(crate) proof fn lemma_no_openings(list: Seq<Step>, count: nat)
    requires
        count <= list.len(),
        forall|index: int| 0 <= index < list.len() ==> !(#[trigger] list[index]).branch,
    ensures
        openings(list, count) == Tally::none(),
    decreases count,
{
    if count > 0 {
        lemma_no_openings(list, (count - 1) as nat);
    }
}

/// Whether steps go to parts that are measured, each at so many levels.
pub(crate) open spec fn steps_measured(
    dialect: Dialect,
    node: SyntaxNode,
    list: Seq<Step>,
    parts: Seq<Metrics>,
    levels: spec_fn(int) -> nat,
) -> bool {
    &&& list.len() == parts.len()
    &&& forall|index: int|
        0 <= index < list.len() ==> {
            let step = #[trigger] list[index];
            &&& step.child < node.children@.len()
            &&& step.depth == levels(index)
            &&& !step.quiet
            &&& measured(dialect, node.children@[step.child as int], parts[index])
        }
}

pub(crate) proof fn lemma_gather(
    dialect: Dialect,
    node: SyntaxNode,
    list: Seq<Step>,
    parts: Seq<Metrics>,
    levels: spec_fn(int) -> nat,
    count: nat,
)
    requires
        count <= list.len(),
        gathered(parts, levels, count).nesting < usize::MAX,
        steps_measured(dialect, node, list, parts, levels),
    ensures
        steps_tally(dialect, node, list, count) == openings(list, count).plus(
            gathered(parts, levels, count),
        ),
    decreases count,
{
    if count > 0 {
        lemma_gather(dialect, node, list, parts, levels, (count - 1) as nat);
        let step = list[count - 1];
        let child = node.children@[step.child as int];
        assert(measured(dialect, child, parts[count - 1]));
        lemma_part_under(dialect, child, parts[count - 1], step.depth);
    }
}

/// What a node comes to whose parts are measured, by the steps of the walk.
pub(crate) proof fn lemma_made(
    dialect: Dialect,
    node: SyntaxNode,
    whole: Metrics,
    own: Tally,
    parts: Seq<Metrics>,
    levels: spec_fn(int) -> nat,
)
    requires
        measured(dialect, node, whole),
        ({
            let list = steps(dialect, node, 0, false);
            &&& own == tallied(own_signals(dialect, node, 0)).plus(openings(list, list.len()))
            &&& steps_measured(dialect, node, list, parts, levels)
        }),
    ensures
        made_of(whole, own, parts, levels),
{
    let list = steps(dialect, node, 0, false);
    let sum = own.plus(gathered(parts, levels, parts.len()));
    if sum.nesting < usize::MAX {
        lemma_gather(dialect, node, list, parts, levels, list.len());
        lemma_walk_tally(dialect, node, 0, false);
        lemma_measured(
            whole,
            signals(dialect, node, 0),
            whole.code_lines,
            whole.parameters,
            whole.explicit_parameters,
        );
    }
}

/// What parts come to depends on the level of each alone.
pub(crate) proof fn lemma_gathered_same(
    parts: Seq<Metrics>,
    others: Seq<Metrics>,
    first: spec_fn(int) -> nat,
    second: spec_fn(int) -> nat,
    count: nat,
)
    requires
        count <= parts.len(),
        count <= others.len(),
        forall|index: int| 0 <= index < count ==> #[trigger] parts[index] == others[index],
        forall|index: int| 0 <= index < count ==> #[trigger] first(index) == second(index),
    ensures
        gathered(parts, first, count) == gathered(others, second, count),
    decreases count,
{
    if count > 0 {
        lemma_gathered_same(parts, others, first, second, (count - 1) as nat);
        assert(parts[count - 1] == others[count - 1]);
        assert(first(count - 1) == second(count - 1));
    }
}

/// What parts come to is what the first of them come to and what the others do.
pub(crate) proof fn lemma_gathered_split(
    parts: Seq<Metrics>,
    levels: spec_fn(int) -> nat,
    place: nat,
    count: nat,
)
    requires
        place <= count <= parts.len(),
    ensures
        gathered(parts, levels, count) == gathered(parts, levels, place).plus(
            gathered(
                parts.skip(place as int),
                |index: int| levels(index + place),
                (count - place) as nat,
            ),
        ),
    decreases count,
{
    if count > place {
        lemma_gathered_split(parts, levels, place, (count - 1) as nat);
        assert(parts.skip(place as int)[count - place - 1] == parts[count - 1]);
    }
}

/// The order of parts is no matter: the last ones may as well come first.
pub(crate) proof fn lemma_gathered_turned(
    parts: Seq<Metrics>,
    levels: spec_fn(int) -> nat,
    place: nat,
    turned: Seq<Metrics>,
    turned_levels: spec_fn(int) -> nat,
)
    requires
        place <= parts.len(),
        turned == parts.skip(place as int) + parts.take(place as int),
        forall|index: int|
            0 <= index < parts.len() - place ==> #[trigger] turned_levels(index) == levels(
                index + place,
            ),
        forall|index: int|
            0 <= index < place ==> turned_levels(index + parts.len() - place) == #[trigger] levels(
                index,
            ),
    ensures
        gathered(turned, turned_levels, parts.len()) == gathered(parts, levels, parts.len()),
{
    let rest = (parts.len() - place) as nat;
    lemma_gathered_split(parts, levels, place, parts.len());
    lemma_gathered_split(turned, turned_levels, rest, parts.len());
    let shifted = |index: int| levels(index + place);
    assert forall|index: int| 0 <= index < rest implies #[trigger] turned_levels(index) == shifted(
        index,
    ) by {}
    lemma_gathered_same(
        turned,
        parts.skip(place as int),
        turned_levels,
        shifted,
        rest,
    );
    let back = turned.skip(rest as int);
    let behind = |index: int| turned_levels(index + rest);
    assert forall|index: int| 0 <= index < place implies #[trigger] behind(index) == levels(
        index,
    ) by {
        assert(levels(index) == levels(index));
    }
    lemma_gathered_same(
        back,
        parts,
        behind,
        levels,
        place,
    );
}

}
