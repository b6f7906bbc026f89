//! The structural score.
use vstd::prelude::*;
use crate::explain::{component_at, units_of};
use crate::model::{Location, Metrics, Position, Score, ScoreComponent, ScoreContribution};
use crate::rust_units::{list_value_signals, value_signals};
use crate::signals::{measure_signals, measures, Signal};
use crate::sums::{clipped, multiplied, total, total_concat, total_push};
use crate::syntax::SyntaxNode;
use crate::text::{points, push_points};
use crate::walk::{collect_signals, signals, Dialect};

verus! {

/// Measure the structural signals that are available from a block of a Rust
/// syntax tree without compiling or expanding the crate.
pub fn measure(
    block: &SyntaxNode,
    code_lines: usize,
    parameters: usize,
    explicit_parameters: usize,
) -> (metrics: Metrics)
    ensures
        measures(
            metrics,
            signals(Dialect::Rust, *block, 0),
            code_lines,
            parameters,
            explicit_parameters,
        ),
{
    let mut list: Vec<Signal> = Vec::new();
    collect_signals(Dialect::Rust, block, 0, &mut list);
    assert(list@ =~= signals(Dialect::Rust, *block, 0));
    measure_signals(&list, code_lines, parameters, explicit_parameters)
}

/// Measure a closure body as its own callable. A closure body can be either a
/// block or a single expression; the latter is one executable statement for
/// parity with an equivalent function body.
pub fn measure_closure(body: &SyntaxNode, code_lines: usize, explicit_parameters: usize) -> (metrics:
    Metrics)
    ensures
        measures(
            metrics,
            value_signals(*body, 0),
            code_lines,
            explicit_parameters,
            explicit_parameters,
        ),
{
    let list = list_value_signals(body, 0);
    measure_signals(&list, code_lines, explicit_parameters, explicit_parameters)
}

/// The parts of a score, added up.
pub open spec fn component_sum(score: Score) -> nat {
    units_of(score, ScoreComponent::Boundary) as nat + units_of(
        score,
        ScoreComponent::ControlDecisions,
    ) as nat + units_of(score, ScoreComponent::NestingPenalty) as nat + units_of(
        score,
        ScoreComponent::BooleanOperators,
    ) as nat + units_of(score, ScoreComponent::ExpressionOperations) as nat + units_of(
        score,
        ScoreComponent::CallSites,
    ) as nat + units_of(score, ScoreComponent::ExplicitParameters) as nat + units_of(
        score,
        ScoreComponent::MatchArms,
    ) as nat
}

/// Whether a score is that of metrics, wherever its units come from.
pub open spec fn scores(score: Score, metrics: Metrics) -> bool {
    &&& score.value == clipped(component_sum(score))
    &&& score.units == score.value
    &&& score.display@ == points(score.value as nat)
    &&& score.boundary == 10
    &&& score.decisions == metrics.control_decisions
    &&& score.control_decisions == metrics.control_decisions
    &&& score.nesting_penalty == metrics.nesting_penalty
    &&& score.boolean_operator_units == clipped((metrics.boolean_operators * 5) as nat)
    &&& score.call_site_units == clipped((metrics.call_sites * 2) as nat)
    &&& score.parameter_units == clipped((metrics.explicit_parameters * 2) as nat)
    &&& score.match_arm_units == clipped((metrics.match_arms * 2) as nat)
    &&& score.expression_operation_units == metrics.expression_operations
}

/// What of `units` is left once the first `count` contributions have given
/// theirs to a component.
pub open spec fn units_left(
    given: Seq<ScoreContribution>,
    component: ScoreComponent,
    units: usize,
    count: nat,
) -> usize
    decreases count,
{
    if count == 0 {
        units
    } else {
        let before = units_left(given, component, units, (count - 1) as nat);
        let next = given[count - 1];
        if next.component != component {
            before
        } else if next.units < before {
            (before - next.units) as usize
        } else {
            0
        }
    }
}

/// The contributions to a component among the first `count`, none with more
/// units than are left.
pub open spec fn located_units(
    given: Seq<ScoreContribution>,
    component: ScoreComponent,
    units: usize,
    count: nat,
) -> Seq<ScoreContribution>
    decreases count,
{
    if count == 0 {
        Seq::empty()
    } else {
        let earlier = located_units(given, component, units, (count - 1) as nat);
        let before = units_left(given, component, units, (count - 1) as nat);
        let after = units_left(given, component, units, count);
        if after < before {
            earlier.push(
                ScoreContribution {
                    component,
                    units: (before - after) as usize,
                    location: given[count - 1].location,
                },
            )
        } else {
            earlier
        }
    }
}

/// All contributions to a component: the located ones, and the rest at the
/// callable as a whole.
pub open spec fn component_contributions(
    given: Seq<ScoreContribution>,
    component: ScoreComponent,
    units: usize,
    location: Location,
) -> Seq<ScoreContribution> {
    let rest = units_left(given, component, units, given.len());
    let located = located_units(given, component, units, given.len());
    if rest > 0 {
        located.push(ScoreContribution { component, units: rest, location })
    } else {
        located
    }
}

/// The contributions to the first `count` components.
pub open spec fn reconciled_upto(
    score: Score,
    given: Seq<ScoreContribution>,
    location: Location,
    count: nat,
) -> Seq<ScoreContribution>
    decreases count,
{
    if count == 0 {
        Seq::empty()
    } else {
        reconciled_upto(score, given, location, (count - 1) as nat) + component_contributions(
            given,
            component_at(count - 1),
            units_of(score, component_at(count - 1)),
            location,
        )
    }
}

/// The units of contributions.
pub open spec fn contribution_units(contributions: Seq<ScoreContribution>) -> Seq<nat> {
    contributions.map_values(|contribution: ScoreContribution| contribution.units as nat)
}

fn push_component(
    contributions: &mut Vec<ScoreContribution>,
    given: &Vec<ScoreContribution>,
    component: ScoreComponent,
    units: usize,
    location: Location,
)
    ensures
        final(contributions)@ == old(contributions)@ + component_contributions(
            given@,
            component,
            units,
            location,
        ),
{
    let ghost held = contributions@;
    let mut left: usize = units;
    let mut index: usize = 0;
    assert(contributions@ =~= held + located_units(given@, component, units, 0));
    while index < given.len()
        invariant
            index <= given@.len(),
            left == units_left(given@, component, units, index as nat),
            contributions@ == held + located_units(given@, component, units, index as nat),
        decreases given@.len() - index,
    {
        let next = given[index];
        if next.component == component && left > 0 && next.units > 0 {
            let taken: usize = if next.units < left {
                next.units
            } else {
                left
            };
            contributions.push(
                ScoreContribution { component, units: taken, location: next.location },
            );
            left = left - taken;
            assert(contributions@ =~= held + located_units(
                given@,
                component,
                units,
                (index + 1) as nat,
            ));
        }
        index += 1;
    }
    if left > 0 {
        contributions.push(ScoreContribution { component, units: left, location });
    }
    assert(contributions@ =~= held + component_contributions(given@, component, units, location));
}

/// Score a callable using Kompass's current structural model. Scores are
/// exact integer tenths so JSON and downstream tooling never lose precision;
/// text output renders those units as a one-decimal value. What `given` does
/// not locate is charged to the callable as a whole, at `location`.
#[verifier::rlimit(40)]
pub fn score_with_contributions(
    metrics: &Metrics,
    location: Location,
    given: &Vec<ScoreContribution>,
) -> (score: Score)
    ensures
        scores(score, *metrics),
        score.contributions@ == reconciled_upto(score, given@, location, 8),
{
    let boundary: usize = 10;
    let control_decision_units: usize = multiplied(metrics.control_decisions, 10);
    let nesting_units: usize = multiplied(metrics.nesting_penalty, 10);
    let boolean_operator_units: usize = multiplied(metrics.boolean_operators, 5);
    let call_site_units: usize = multiplied(metrics.call_sites, 2);
    let parameter_units: usize = multiplied(metrics.explicit_parameters, 2);
    let match_arm_units: usize = multiplied(metrics.match_arms, 2);
    let value: usize = boundary.saturating_add(control_decision_units).saturating_add(
        nesting_units,
    ).saturating_add(boolean_operator_units).saturating_add(
        metrics.expression_operations,
    ).saturating_add(call_site_units).saturating_add(parameter_units).saturating_add(
        match_arm_units,
    );
    let mut display = String::new();
    push_points(&mut display, value);
    assert(display@ =~= points(value as nat));
    let mut contributions: Vec<ScoreContribution> = Vec::new();
    push_component(
        &mut contributions,
        given,
        ScoreComponent::Boundary,
        boundary,
        location,
    );
    push_component(
        &mut contributions,
        given,
        ScoreComponent::ControlDecisions,
        control_decision_units,
        location,
    );
    push_component(
        &mut contributions,
        given,
        ScoreComponent::NestingPenalty,
        nesting_units,
        location,
    );
    push_component(
        &mut contributions,
        given,
        ScoreComponent::BooleanOperators,
        boolean_operator_units,
        location,
    );
    push_component(
        &mut contributions,
        given,
        ScoreComponent::ExpressionOperations,
        metrics.expression_operations,
        location,
    );
    push_component(
        &mut contributions,
        given,
        ScoreComponent::CallSites,
        call_site_units,
        location,
    );
    push_component(
        &mut contributions,
        given,
        ScoreComponent::ExplicitParameters,
        parameter_units,
        location,
    );
    push_component(
        &mut contributions,
        given,
        ScoreComponent::MatchArms,
        match_arm_units,
        location,
    );
    let score = Score {
        value,
        units: value,
        display,
        decisions: metrics.control_decisions,
        control_decisions: metrics.control_decisions,
        nesting_penalty: metrics.nesting_penalty,
        boundary,
        boolean_operator_units,
        call_site_units,
        parameter_units,
        match_arm_units,
        expression_operation_units: metrics.expression_operations,
        contributions,
    };
    proof {
        reveal_with_fuel(reconciled_upto, 9);
        assert(score.contributions@ =~= reconciled_upto(score, given@, location, 8));
    }
    score
}

/// Score a callable of which nothing is located.
pub fn score(metrics: &Metrics) -> (result: Score)
    ensures
        scores(result, *metrics),
        result.contributions@ == reconciled_upto(
            result,
            Seq::empty(),
            Location { start: Position { line: 0, column: 0 }, end: Position { line: 0, column: 0 } },
            8,
        ),
{
    let nowhere = Position { line: 0, column: 0 };
    let given: Vec<ScoreContribution> = Vec::new();
    score_with_contributions(metrics, Location { start: nowhere, end: nowhere }, &given)
}

/// Each charge of the formula in integer tenths of a score point.
pub proof fn score_is_a_linear_formula(score: Score, metrics: Metrics)
    requires
        scores(score, metrics),
        10 + metrics.control_decisions * 10 + metrics.nesting_penalty * 10
            + metrics.boolean_operators * 5 + metrics.expression_operations + metrics.call_sites * 2
            + metrics.explicit_parameters * 2 + metrics.match_arms * 2 <= usize::MAX,
    ensures
        score.value == 10 + metrics.control_decisions * 10 + metrics.nesting_penalty * 10
            + metrics.boolean_operators * 5 + metrics.expression_operations + metrics.call_sites * 2
            + metrics.explicit_parameters * 2 + metrics.match_arms * 2,
{
}

proof fn lemma_component_units(
    given: Seq<ScoreContribution>,
    component: ScoreComponent,
    units: usize,
    count: nat,
)
    requires
        count <= given.len(),
    ensures
        total(contribution_units(located_units(given, component, units, count))) + units_left(
            given,
            component,
            units,
            count,
        ) == units,
    decreases count,
{
    if count == 0 {
        assert(contribution_units(Seq::empty()) =~= Seq::<nat>::empty());
    } else {
        lemma_component_units(given, component, units, (count - 1) as nat);
        let earlier = located_units(given, component, units, (count - 1) as nat);
        let before = units_left(given, component, units, (count - 1) as nat);
        let after = units_left(given, component, units, count);
        if after < before {
            let listed = located_units(given, component, units, count);
            assert(contribution_units(listed) =~= contribution_units(earlier).push(
                (before - after) as nat,
            ));
            total_push(contribution_units(earlier), (before - after) as nat);
        }
    }
}

proof fn lemma_component_total(
    given: Seq<ScoreContribution>,
    component: ScoreComponent,
    units: usize,
    location: Location,
)
    ensures
        total(
            contribution_units(component_contributions(given, component, units, location)),
        ) == units,
{
    lemma_component_units(given, component, units, given.len());
    let rest = units_left(given, component, units, given.len());
    let located = located_units(given, component, units, given.len());
    if rest > 0 {
        let last = ScoreContribution { component, units: rest, location };
        assert(contribution_units(located.push(last)) =~= contribution_units(located).push(
            rest as nat,
        ));
        total_push(contribution_units(located), rest as nat);
    }
}

/// The components of the first `count`, added up.
spec fn components_upto(score: Score, count: nat) -> nat
    decreases count,
{
    if count == 0 {
        0
    } else {
        components_upto(score, (count - 1) as nat) + units_of(score, component_at(count - 1)) as nat
    }
}

proof fn lemma_reconciled(
    score: Score,
    given: Seq<ScoreContribution>,
    location: Location,
    count: nat,
)
    ensures
        total(contribution_units(reconciled_upto(score, given, location, count)))
            == components_upto(score, count),
    decreases count,
{
    if count == 0 {
        assert(contribution_units(Seq::empty()) =~= Seq::<nat>::empty());
    } else {
        lemma_reconciled(score, given, location, (count - 1) as nat);
        let component = component_at(count - 1);
        let earlier = reconciled_upto(score, given, location, (count - 1) as nat);
        let own = component_contributions(given, component, units_of(score, component), location);
        lemma_component_total(given, component, units_of(score, component), location);
        assert(contribution_units(earlier + own) =~= contribution_units(earlier)
            + contribution_units(own));
        total_concat(contribution_units(earlier), contribution_units(own));
    }
}

/// The contributions of a score add up exactly to its units, and so do its
/// eight components, unless the score exceeds the range of its type.
pub proof fn contributions_add_up_to_the_score(
    score: Score,
    metrics: Metrics,
    given: Seq<ScoreContribution>,
    location: Location,
)
    requires
        scores(score, metrics),
        score.contributions@ == reconciled_upto(score, given, location, 8),
        component_sum(score) <= usize::MAX,
    ensures
        total(contribution_units(score.contributions@)) == score.units,
        component_sum(score) == score.units,
{
    lemma_reconciled(score, given, location, 8);
    reveal_with_fuel(components_upto, 9);
}

}
