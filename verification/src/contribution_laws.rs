//! Where the units of a score come from.
use vstd::prelude::*;
use crate::explain::units_of;
use crate::model::{FunctionReport, Location, ScoreComponent, ScoreContribution};
use crate::order::{kept, kept_upto};
use crate::score::{component_contributions, located_units, reconciled_upto, units_left};
use crate::signals::{
    contributions_upto, nesting, signal_contributions, signal_count, Signal, SignalKind,
};
use crate::units::{
    all_placed, located, reports, unit_contributions, ByteRange, SourceMapView, UnitView,
};

verus! {

/// The units that contributions among the first `count` give to a component.
pub open spec fn given_units(
    given: Seq<ScoreContribution>,
    component: ScoreComponent,
    count: nat,
) -> nat
    decreases count,
{
    if count == 0 {
        0
    } else {
        given_units(given, component, (count - 1) as nat) + if given[count - 1].component
            == component {
            given[count - 1].units as nat
        } else {
            0
        }
    }
}

proof fn lemma_given_grows(
    given: Seq<ScoreContribution>,
    component: ScoreComponent,
    fewer: nat,
    more: nat,
)
    requires
        fewer <= more,
    ensures
        given_units(given, component, fewer) <= given_units(given, component, more),
    decreases more,
{
    if fewer < more {
        lemma_given_grows(given, component, fewer, (more - 1) as nat);
    }
}

/// The contributions to a component that have units.
pub open spec fn to_component(component: ScoreComponent) -> spec_fn(ScoreContribution) -> bool {
    |contribution: ScoreContribution|
        contribution.component == component && contribution.units > 0
}

proof fn lemma_all_taken(
    given: Seq<ScoreContribution>,
    component: ScoreComponent,
    units: usize,
    count: nat,
)
    requires
        count <= given.len(),
        given_units(given, component, given.len()) <= units,
    ensures
        units_left(given, component, units, count) == units - given_units(given, component, count),
        located_units(given, component, units, count) == kept_upto(
            given,
            to_component(component),
            count,
        ),
    decreases count,
{
    lemma_given_grows(given, component, count, given.len());
    if count > 0 {
        lemma_all_taken(given, component, units, (count - 1) as nat);
        let last = given[count - 1];
        assert(given_units(given, component, count) <= units);
        if last.component == component && last.units > 0 {
            assert(last == ScoreContribution {
                component,
                units: last.units,
                location: last.location,
            });
        }
    }
}

/// Where all units of a component are given, the contributions to it are what was
/// given, in its order, and nothing is charged to the callable as a whole.
pub proof fn given_units_are_kept(
    given: Seq<ScoreContribution>,
    component: ScoreComponent,
    units: usize,
    location: Location,
)
    requires
        given_units(given, component, given.len()) == units,
    ensures
        component_contributions(given, component, units, location) == kept(
            given,
            to_component(component),
        ),
{
    lemma_all_taken(given, component, units, given.len());
}

proof fn lemma_concat_units(
    left: Seq<ScoreContribution>,
    right: Seq<ScoreContribution>,
    component: ScoreComponent,
    count: nat,
)
    requires
        count <= right.len(),
    ensures
        given_units(left + right, component, left.len() + count) == given_units(
            left,
            component,
            left.len(),
        ) + given_units(right, component, count),
    decreases count,
{
    if count == 0 {
        lemma_prefix_units(left, left + right, component, left.len());
    } else {
        lemma_concat_units(left, right, component, (count - 1) as nat);
        assert((left + right)[left.len() + count - 1] == right[count - 1]);
    }
}

proof fn lemma_prefix_units(
    left: Seq<ScoreContribution>,
    whole: Seq<ScoreContribution>,
    component: ScoreComponent,
    count: nat,
)
    requires
        count <= left.len() <= whole.len(),
        forall|index: int| 0 <= index < left.len() ==> left[index] == whole[index],
    ensures
        given_units(left, component, count) == given_units(whole, component, count),
    decreases count,
{
    if count > 0 {
        lemma_prefix_units(left, whole, component, (count - 1) as nat);
    }
}

/// The units that the first `count` signals are charged to a component.
spec fn charge_total(list: Seq<Signal>, component: ScoreComponent, count: nat) -> int
    decreases count,
{
    if count == 0 {
        0
    } else {
        charge_total(list, component, (count - 1) as nat) + charged(
            list[count - 1].kind,
            component,
            list[count - 1].depth,
        )
    }
}

proof fn lemma_charges(list: Seq<Signal>, count: nat)
    requires
        count <= list.len(),
    ensures
        charge_total(list, ScoreComponent::ControlDecisions, count) == 10 * (signal_count(
            list,
            SignalKind::Branch,
            count,
        ) + signal_count(list, SignalKind::Guard, count)),
        charge_total(list, ScoreComponent::NestingPenalty, count) == 10 * nesting(list, count),
        charge_total(list, ScoreComponent::BooleanOperators, count) == 5 * signal_count(
            list,
            SignalKind::BooleanOperator,
            count,
        ),
        charge_total(list, ScoreComponent::ExpressionOperations, count) == signal_count(
            list,
            SignalKind::Operation,
            count,
        ),
        charge_total(list, ScoreComponent::CallSites, count) == 2 * signal_count(
            list,
            SignalKind::CallSite,
            count,
        ),
        charge_total(list, ScoreComponent::MatchArms, count) == 2 * signal_count(
            list,
            SignalKind::MatchArm,
            count,
        ),
    decreases count,
{
    if count > 0 {
        lemma_charges(list, (count - 1) as nat);
    }
}

proof fn lemma_own_units(map: SourceMapView, signal: Signal, component: ScoreComponent)
    requires
        signal.kind == SignalKind::Branch || signal.kind == SignalKind::Guard ==> signal.depth * 10
            <= usize::MAX,
        component != ScoreComponent::Boundary,
        component != ScoreComponent::ExplicitParameters,
    ensures
        ({
            let own = all_placed(map, signal_contributions(signal));
            given_units(own, component, own.len()) == charged(
                signal.kind,
                component,
                signal.depth,
            )
        }),
{
    let own = all_placed(map, signal_contributions(signal));
    reveal_with_fuel(given_units, 3);
    assert(own.len() <= 2);
}

proof fn lemma_signal_units(
    map: SourceMapView,
    list: Seq<Signal>,
    component: ScoreComponent,
    count: nat,
)
    requires
        count <= list.len(),
        nesting(list, list.len()) * 10 <= usize::MAX,
        component != ScoreComponent::Boundary,
        component != ScoreComponent::ExplicitParameters,
    ensures
        ({
            let given = all_placed(map, contributions_upto(list, count));
            given_units(given, component, given.len()) == charge_total(list, component, count)
        }),
    decreases count,
{
    let given = all_placed(map, contributions_upto(list, count));
    if count == 0 {
        assert(given.len() == 0);
    } else {
        lemma_signal_units(map, list, component, (count - 1) as nat);
        lemma_nesting_grows(list, count, list.len());
        let earlier = all_placed(map, contributions_upto(list, (count - 1) as nat));
        let own = all_placed(map, signal_contributions(list[count - 1]));
        assert(given =~= earlier + own);
        lemma_concat_units(earlier, own, component, own.len());
        lemma_own_units(map, list[count - 1], component);
    }
}

proof fn lemma_nesting_grows(list: Seq<Signal>, fewer: nat, more: nat)
    requires
        fewer <= more,
    ensures
        nesting(list, fewer) <= nesting(list, more),
    decreases more,
{
    if fewer < more {
        lemma_nesting_grows(list, fewer, (more - 1) as nat);
    }
}

/// What a signal of a kind is charged to, and how many units a signal at a depth is
/// charged there: a decision twice, once for what it is and once for its depth.
pub open spec fn charged(kind: SignalKind, component: ScoreComponent, depth: usize) -> int {
    match (kind, component) {
        (SignalKind::Branch, ScoreComponent::ControlDecisions) => 10,
        (SignalKind::Guard, ScoreComponent::ControlDecisions) => 10,
        (SignalKind::Branch, ScoreComponent::NestingPenalty) => depth * 10,
        (SignalKind::Guard, ScoreComponent::NestingPenalty) => depth * 10,
        (SignalKind::BooleanOperator, ScoreComponent::BooleanOperators) => 5,
        (SignalKind::Operation, ScoreComponent::ExpressionOperations) => 1,
        (SignalKind::CallSite, ScoreComponent::CallSites) => 2,
        (SignalKind::MatchArm, ScoreComponent::MatchArms) => 2,
        _ => 0,
    }
}

/// The signals among the first `count` that are charged to a component, as
/// contributions where they stand.
pub open spec fn charges_upto(
    map: SourceMapView,
    list: Seq<Signal>,
    component: ScoreComponent,
    count: nat,
) -> Seq<ScoreContribution>
    decreases count,
{
    if count == 0 {
        Seq::empty()
    } else {
        let earlier = charges_upto(map, list, component, (count - 1) as nat);
        let signal = list[count - 1];
        if charged(signal.kind, component, signal.depth) > 0 {
            earlier.push(
                ScoreContribution {
                    component,
                    units: charged(signal.kind, component, signal.depth) as usize,
                    location: located(map, ByteRange { start: signal.start, end: signal.end }),
                },
            )
        } else {
            earlier
        }
    }
}

proof fn lemma_kept_concat(
    left: Seq<ScoreContribution>,
    right: Seq<ScoreContribution>,
    component: ScoreComponent,
    count: nat,
)
    requires
        count <= right.len(),
    ensures
        kept_upto(left + right, to_component(component), left.len() + count) == kept(
            left,
            to_component(component),
        ) + kept_upto(right, to_component(component), count),
    decreases count,
{
    let keep = to_component(component);
    if count == 0 {
        lemma_kept_prefix(left, left + right, component, left.len());
        assert(kept(left, keep) + kept_upto(right, keep, 0) =~= kept(left, keep));
    } else {
        lemma_kept_concat(left, right, component, (count - 1) as nat);
        assert((left + right)[left.len() + count - 1] == right[count - 1]);
        let earlier = kept_upto(right, keep, (count - 1) as nat);
        assert(kept(left, keep) + earlier.push(right[count - 1]) =~= (kept(left, keep)
            + earlier).push(right[count - 1]));
    }
}

proof fn lemma_kept_prefix(
    left: Seq<ScoreContribution>,
    whole: Seq<ScoreContribution>,
    component: ScoreComponent,
    count: nat,
)
    requires
        count <= left.len() <= whole.len(),
        forall|index: int| 0 <= index < left.len() ==> left[index] == whole[index],
    ensures
        kept_upto(left, to_component(component), count) == kept_upto(
            whole,
            to_component(component),
            count,
        ),
    decreases count,
{
    if count > 0 {
        lemma_kept_prefix(left, whole, component, (count - 1) as nat);
    }
}

proof fn lemma_kept_signals(
    map: SourceMapView,
    list: Seq<Signal>,
    component: ScoreComponent,
    count: nat,
)
    requires
        count <= list.len(),
        nesting(list, list.len()) * 10 <= usize::MAX,
        component != ScoreComponent::Boundary,
        component != ScoreComponent::ExplicitParameters,
    ensures
        kept(all_placed(map, contributions_upto(list, count)), to_component(component))
            == charges_upto(map, list, component, count),
    decreases count,
{
    let keep = to_component(component);
    let given = all_placed(map, contributions_upto(list, count));
    if count == 0 {
        assert(given.len() == 0);
    } else {
        lemma_kept_signals(map, list, component, (count - 1) as nat);
        lemma_nesting_grows(list, count, list.len());
        let earlier = all_placed(map, contributions_upto(list, (count - 1) as nat));
        let signal = list[count - 1];
        let own = all_placed(map, signal_contributions(signal));
        assert(given =~= earlier + own);
        lemma_kept_concat(earlier, own, component, own.len());
        reveal_with_fuel(kept_upto, 3);
        assert(kept(given, keep) == kept(earlier, keep) + kept(own, keep));
        assert(charges_upto(map, list, component, count) =~= kept(earlier, keep) + kept(own, keep));
    }
}

/// The contributions of a report to a component are its signals that are charged to
/// it, in their order, each with its units and where it stands: decisions with ten
/// units, and ten more for each level; Boolean operators with five, operations with
/// one, calls and arms with two.
pub proof fn contributions_stand_where_their_signals_do(
    report: FunctionReport,
    unit: UnitView,
    map: SourceMapView,
    component: ScoreComponent,
)
    requires
        reports(report, unit, map),
        nesting(unit.signals, unit.signals.len()) * 10 <= usize::MAX,
        report.metrics.control_decisions * 10 <= usize::MAX,
        report.metrics.boolean_operators * 5 <= usize::MAX,
        report.metrics.call_sites * 2 <= usize::MAX,
        report.metrics.match_arms * 2 <= usize::MAX,
        component != ScoreComponent::Boundary,
        component != ScoreComponent::ExplicitParameters,
    ensures
        component_contributions(
            all_placed(map, unit_contributions(unit)),
            component,
            units_of(report.score, component),
            report.location,
        ) == charges_upto(map, unit.signals, component, unit.signals.len()),
{
    let list = unit.signals;
    let pending = unit_contributions(unit);
    let given = all_placed(map, pending);
    let first = all_placed(map, contributions_upto(list, list.len()));
    let rest = given.skip(first.len() as int);
    assert(given =~= first + rest);
    lemma_signal_units(map, list, component, list.len());
    lemma_charges(list, list.len());
    assert forall|index: int| 0 <= index < rest.len() implies (
    #[trigger] rest[index]).component == ScoreComponent::ExplicitParameters
        || rest[index].component == ScoreComponent::Boundary by {
        assert(rest[index] == given[first.len() + index]);
    }
    lemma_other_units(rest, component, rest.len());
    lemma_concat_units(first, rest, component, rest.len());
    lemma_kept_concat(first, rest, component, rest.len());
    lemma_kept_signals(map, list, component, list.len());
    let keep = to_component(component);
    assert(kept(first, keep) + kept(rest, keep) =~= kept(first, keep));
    given_units_are_kept(given, component, units_of(report.score, component), report.location);
}

proof fn lemma_other_units(rest: Seq<ScoreContribution>, component: ScoreComponent, count: nat)
    requires
        count <= rest.len(),
        component != ScoreComponent::Boundary,
        component != ScoreComponent::ExplicitParameters,
        forall|index: int|
            0 <= index < rest.len() ==> (#[trigger] rest[index]).component
                == ScoreComponent::ExplicitParameters || rest[index].component
                == ScoreComponent::Boundary,
    ensures
        given_units(rest, component, count) == 0,
        kept_upto(rest, to_component(component), count).len() == 0,
    decreases count,
{
    if count > 0 {
        lemma_other_units(rest, component, (count - 1) as nat);
        assert(rest[count - 1].component != component);
    }
}

/// The contributions of a score are those to its components, one component behind
/// the other.
pub proof fn contributions_are_listed_by_component(report: FunctionReport, unit: UnitView, map: SourceMapView)
    requires
        reports(report, unit, map),
    ensures
        ({
            let given = all_placed(map, unit_contributions(unit));
            let to = |component: ScoreComponent|
                component_contributions(
                    given,
                    component,
                    units_of(report.score, component),
                    report.location,
                );
            report.score.contributions@ == to(ScoreComponent::Boundary) + to(
                ScoreComponent::ControlDecisions,
            ) + to(ScoreComponent::NestingPenalty) + to(ScoreComponent::BooleanOperators) + to(
                ScoreComponent::ExpressionOperations,
            ) + to(ScoreComponent::CallSites) + to(ScoreComponent::ExplicitParameters) + to(
                ScoreComponent::MatchArms,
            )
        }),
{
    reveal_with_fuel(reconciled_upto, 9);
    let given = all_placed(map, unit_contributions(unit));
    let first = reconciled_upto(report.score, given, report.location, 1);
    assert(first =~= component_contributions(
        given,
        ScoreComponent::Boundary,
        units_of(report.score, ScoreComponent::Boundary),
        report.location,
    ));
}

}
