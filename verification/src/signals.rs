//! The structural signals of source, and what they come to.
use vstd::prelude::*;
use crate::model::{Metrics, ScoreComponent};
use crate::sums::clipped;

verus! {

/// What makes source more or less complex to read.
#[derive(Clone, Copy, Debug, PartialEq, Eq, Structural)]
pub enum SignalKind {
    Statement,
    /// A decision that opens a branch.
    Branch,
    /// A decision on the way into a branch, such as a guard of a match arm.
    Guard,
    Loop,
    Operation,
    BooleanOperator,
    CallSite,
    MatchArm,
    Mutation,
    Return,
    Closure,
    MacroCall,
    UnsafeBlock,
}

/// A signal, the control-flow depth at which it stands, and where.
#[derive(Clone, Copy, Debug, PartialEq, Eq, Structural)]
pub struct Signal {
    pub kind: SignalKind,
    pub depth: usize,
    pub start: usize,
    pub end: usize,
}

/// How many of the first `count` signals are of a kind.
pub open spec fn signal_count(signals: Seq<Signal>, kind: SignalKind, count: nat) -> nat
    decreases count,
{
    if count == 0 {
        0
    } else {
        signal_count(signals, kind, (count - 1) as nat) + if signals[count - 1].kind == kind {
            1nat
        } else {
            0nat
        }
    }
}

/// The depths of the decisions among the first `count` signals, added up.
pub open spec fn nesting(signals: Seq<Signal>, count: nat) -> nat
    decreases count,
{
    if count == 0 {
        0
    } else {
        nesting(signals, (count - 1) as nat) + if signals[count - 1].kind == SignalKind::Branch
            || signals[count - 1].kind == SignalKind::Guard {
            signals[count - 1].depth as nat
        } else {
            0
        }
    }
}

/// One more than a depth.
pub open spec fn deeper(depth: usize) -> usize {
    clipped((depth + 1) as nat)
}

/// The greatest depth that a branch among the first `count` signals opens.
pub open spec fn deepest(signals: Seq<Signal>, count: nat) -> usize
    decreases count,
{
    if count == 0 {
        0
    } else {
        let earlier = deepest(signals, (count - 1) as nat);
        if signals[count - 1].kind == SignalKind::Branch && deeper(signals[count - 1].depth)
            > earlier {
            deeper(signals[count - 1].depth)
        } else {
            earlier
        }
    }
}

/// How many signals are of a kind.
pub open spec fn tally(signals: Seq<Signal>, kind: SignalKind) -> nat {
    signal_count(signals, kind, signals.len())
}

/// Whether metrics are those of signals, with the counts that come from
/// outside the signals.
pub open spec fn measures(
    metrics: Metrics,
    signals: Seq<Signal>,
    code_lines: usize,
    parameters: usize,
    explicit_parameters: usize,
) -> bool {
    let branches = tally(signals, SignalKind::Branch);
    let guards = tally(signals, SignalKind::Guard);
    let boolean_operators = tally(signals, SignalKind::BooleanOperator);
    &&& metrics.code_lines == code_lines
    &&& metrics.statements == tally(signals, SignalKind::Statement)
    &&& metrics.expression_operations == tally(signals, SignalKind::Operation)
    &&& metrics.decisions == branches + guards + boolean_operators
    &&& metrics.control_decisions == branches + guards
    &&& metrics.nesting_penalty == clipped(nesting(signals, signals.len()))
    &&& metrics.max_depth == deepest(signals, signals.len())
    &&& metrics.macro_calls == tally(signals, SignalKind::MacroCall)
    &&& metrics.branches == branches
    &&& metrics.boolean_operators == boolean_operators
    &&& metrics.match_arms == tally(signals, SignalKind::MatchArm)
    &&& metrics.loops == tally(signals, SignalKind::Loop)
    &&& metrics.returns == tally(signals, SignalKind::Return)
    &&& metrics.mutations == tally(signals, SignalKind::Mutation)
    &&& metrics.parameters == parameters
    &&& metrics.explicit_parameters == explicit_parameters
    &&& metrics.call_sites == tally(signals, SignalKind::CallSite)
    &&& metrics.closures == tally(signals, SignalKind::Closure)
    &&& metrics.unsafe_blocks == tally(signals, SignalKind::UnsafeBlock)
}

fn count_signals(signals: &Vec<Signal>, kind: SignalKind) -> (number: usize)
    ensures
        number == tally(signals@, kind),
{
    let mut number: usize = 0;
    let mut index: usize = 0;
    while index < signals.len()
        invariant
            index <= signals@.len(),
            number <= index,
            number == signal_count(signals@, kind, index as nat),
        decreases signals@.len() - index,
    {
        if signals[index].kind == kind {
            number += 1;
        }
        index += 1;
    }
    number
}

pub fn go_deeper(depth: usize) -> (result: usize)
    ensures
        result == deeper(depth),
{
    if depth < usize::MAX {
        depth + 1
    } else {
        depth
    }
}

proof fn lemma_decisions_bounded(signals: Seq<Signal>, count: nat)
    ensures
        signal_count(signals, SignalKind::Branch, count) + signal_count(
            signals,
            SignalKind::Guard,
            count,
        ) + signal_count(signals, SignalKind::BooleanOperator, count) <= count,
    decreases count,
{
    if count > 0 {
        lemma_decisions_bounded(signals, (count - 1) as nat);
    }
}

/// The metrics of signals.
pub fn measure_signals(
    signals: &Vec<Signal>,
    code_lines: usize,
    parameters: usize,
    explicit_parameters: usize,
) -> (metrics: Metrics)
    ensures
        measures(metrics, signals@, code_lines, parameters, explicit_parameters),
{
    let mut nesting_penalty: usize = 0;
    let mut max_depth: usize = 0;
    let mut index: usize = 0;
    while index < signals.len()
        invariant
            index <= signals@.len(),
            nesting_penalty == clipped(nesting(signals@, index as nat)),
            max_depth == deepest(signals@, index as nat),
        decreases signals@.len() - index,
    {
        let signal = signals[index];
        if signal.kind == SignalKind::Branch || signal.kind == SignalKind::Guard {
            nesting_penalty = nesting_penalty.saturating_add(signal.depth);
        }
        if signal.kind == SignalKind::Branch {
            let inside: usize = go_deeper(signal.depth);
            if inside > max_depth {
                max_depth = inside;
            }
        }
        index += 1;
    }
    let total: usize = signals.len();
    let branches: usize = count_signals(signals, SignalKind::Branch);
    let guards: usize = count_signals(signals, SignalKind::Guard);
    let boolean_operators: usize = count_signals(signals, SignalKind::BooleanOperator);
    proof {
        lemma_decisions_bounded(signals@, signals@.len());
    }
    Metrics {
        code_lines,
        statements: count_signals(signals, SignalKind::Statement),
        expression_operations: count_signals(signals, SignalKind::Operation),
        decisions: branches + guards + boolean_operators,
        control_decisions: branches + guards,
        nesting_penalty,
        max_depth,
        macro_calls: count_signals(signals, SignalKind::MacroCall),
        branches,
        boolean_operators,
        match_arms: count_signals(signals, SignalKind::MatchArm),
        loops: count_signals(signals, SignalKind::Loop),
        returns: count_signals(signals, SignalKind::Return),
        mutations: count_signals(signals, SignalKind::Mutation),
        parameters,
        explicit_parameters,
        call_sites: count_signals(signals, SignalKind::CallSite),
        closures: count_signals(signals, SignalKind::Closure),
        unsafe_blocks: count_signals(signals, SignalKind::UnsafeBlock),
    }
}

/// Units of a component, and the bytes of the source that they come from.
#[derive(Clone, Copy, Debug, PartialEq, Eq, Structural)]
pub struct PendingContribution {
    pub component: ScoreComponent,
    pub units: usize,
    pub start: usize,
    pub end: usize,
}

/// What a signal contributes to a score.
pub open spec fn signal_contributions(signal: Signal) -> Seq<PendingContribution> {
    let at = |component: ScoreComponent, units: usize|
        PendingContribution { component, units, start: signal.start, end: signal.end };
    match signal.kind {
        SignalKind::Branch | SignalKind::Guard => if signal.depth > 0 {
            seq![
                at(ScoreComponent::ControlDecisions, 10),
                at(ScoreComponent::NestingPenalty, clipped((signal.depth * 10) as nat)),
            ]
        } else {
            seq![at(ScoreComponent::ControlDecisions, 10)]
        },
        SignalKind::BooleanOperator => seq![at(ScoreComponent::BooleanOperators, 5)],
        SignalKind::Operation => seq![at(ScoreComponent::ExpressionOperations, 1)],
        SignalKind::CallSite => seq![at(ScoreComponent::CallSites, 2)],
        SignalKind::MatchArm => seq![at(ScoreComponent::MatchArms, 2)],
        _ => seq![],
    }
}

/// What the first `count` signals contribute to a score.
pub open spec fn contributions_upto(signals: Seq<Signal>, count: nat) -> Seq<PendingContribution>
    decreases count,
{
    if count == 0 {
        Seq::empty()
    } else {
        contributions_upto(signals, (count - 1) as nat) + signal_contributions(
            signals[count - 1],
        )
    }
}

pub fn list_contributions(signals: &Vec<Signal>) -> (contributions: Vec<PendingContribution>)
    ensures
        contributions@ == contributions_upto(signals@, signals@.len()),
{
    let mut contributions: Vec<PendingContribution> = Vec::new();
    let mut index: usize = 0;
    while index < signals.len()
        invariant
            index <= signals@.len(),
            contributions@ == contributions_upto(signals@, index as nat),
        decreases signals@.len() - index,
    {
        let signal = signals[index];
        let ghost held = contributions@;
        let (start, end) = (signal.start, signal.end);
        match signal.kind {
            SignalKind::Branch | SignalKind::Guard => {
                let component = ScoreComponent::ControlDecisions;
                contributions.push(PendingContribution { component, units: 10, start, end });
                if signal.depth > 0 {
                    let component = ScoreComponent::NestingPenalty;
                    let units: usize = crate::sums::multiplied(signal.depth, 10);
                    contributions.push(PendingContribution { component, units, start, end });
                }
            },
            SignalKind::BooleanOperator => {
                let component = ScoreComponent::BooleanOperators;
                contributions.push(PendingContribution { component, units: 5, start, end });
            },
            SignalKind::Operation => {
                let component = ScoreComponent::ExpressionOperations;
                contributions.push(PendingContribution { component, units: 1, start, end });
            },
            SignalKind::CallSite => {
                let component = ScoreComponent::CallSites;
                contributions.push(PendingContribution { component, units: 2, start, end });
            },
            SignalKind::MatchArm => {
                let component = ScoreComponent::MatchArms;
                contributions.push(PendingContribution { component, units: 2, start, end });
            },
            _ => {},
        }
        assert(contributions@ =~= held + signal_contributions(signal));
        index += 1;
    }
    contributions
}

/// How many of the first `count` signals are decisions, operations or calls.
pub open spec fn scored_count(list: Seq<Signal>, count: nat) -> nat
    decreases count,
{
    if count == 0 {
        0
    } else {
        let kind = list[count - 1].kind;
        scored_count(list, (count - 1) as nat) + if kind == SignalKind::Branch || kind
            == SignalKind::Guard || kind == SignalKind::BooleanOperator || kind
            == SignalKind::Operation || kind == SignalKind::CallSite {
            1nat
        } else {
            0nat
        }
    }
}

pub(crate) fn count_scored(list: &Vec<Signal>) -> (number: usize)
    ensures
        number == scored_count(list@, list@.len()),
{
    let mut number: usize = 0;
    let mut index: usize = 0;
    while index < list.len()
        invariant
            index <= list@.len(),
            number <= index,
            number == scored_count(list@, index as nat),
        decreases list@.len() - index,
    {
        match list[index].kind {
            SignalKind::Branch
            | SignalKind::Guard
            | SignalKind::BooleanOperator
            | SignalKind::Operation
            | SignalKind::CallSite => {
                number += 1;
            },
            _ => {},
        }
        index += 1;
    }
    number
}

}
