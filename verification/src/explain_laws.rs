//! What holds of every explanation of a line.
use vstd::prelude::*;
use crate::evidence::CallEdge;
use crate::explain::{
    component_at, containing, contributes, edge_touches, explains, explains_component,
    explains_line, innermost_upto, lies_inside, nothing_lies_inside_the_innermost, outer_precedes,
    reaches_over, ExplainCandidate, ExplainReport,
};
use crate::model::{
    same_score, FileReport, FunctionReport, Location, Position, Report, ScoreComponent,
    ScoreContribution,
};
use crate::order::{
    kept, lemma_kept_holds, lemma_sorted_holds, order_pair, order_triple, sorted_is_ordered,
    sorted_length, text_order, text_order_is_total,
};
use crate::sums::{total, total_kept};

verus! {

/// Whether a candidate is a callable of the report.
pub open spec fn stands_for(candidate: ExplainCandidate, function: FunctionReport) -> bool {
    &&& candidate.name == function.name
    &&& candidate.kind == function.kind
    &&& candidate.category == function.category
    &&& candidate.location == function.location
    &&& candidate.lines == function.lines
    &&& candidate.tokens == function.tokens
    &&& same_score(candidate.score, function.score)
}

/// A line is explained by the callables that start on it or before and end on it
/// or behind, all of them and no others, as many as there are.
pub proof fn a_line_is_explained_by_what_is_over_it(
    explanation: ExplainReport,
    report: Report,
    path: Seq<char>,
    file: FileReport,
    line: usize,
)
    requires
        explains_line(explanation, report, path, file, line),
    ensures
        forall|place: int|
            0 <= place < file.functions@.len() && (
            #[trigger] file.functions@[place]).location.start.line <= line && line
                <= file.functions@[place].location.end.line ==> exists|index: int|
                0 <= index < explanation.candidates@.len() && stands_for(
                    #[trigger] explanation.candidates@[index],
                    file.functions@[place],
                ),
        forall|index: int|
            0 <= index < explanation.candidates@.len() ==> (
            #[trigger] explanation.candidates@[index]).location.start.line <= line && line
                <= explanation.candidates@[index].location.end.line && exists|place: int|
                0 <= place < file.functions@.len() && stands_for(
                    explanation.candidates@[index],
                    #[trigger] file.functions@[place],
                ),
        explanation.total == total(
            file.functions@.map_values(
                |function: FunctionReport|
                    if function.location.start.line <= line && line <= function.location.end.line {
                        1nat
                    } else {
                        0nat
                    },
            ),
        ),
        explanation.total == explanation.candidates@.len(),
        explanation.returned == explanation.candidates@.len(),
{
    let functions = file.functions@;
    let over = kept(functions, reaches_over(line));
    let listed = containing(functions, line);
    sorted_length(over, outer_precedes());
    assert forall|place: int|
        0 <= place < functions.len() && (#[trigger] functions[place]).location.start.line <= line
            && line <= functions[place].location.end.line implies exists|index: int|
        0 <= index < explanation.candidates@.len() && stands_for(
            #[trigger] explanation.candidates@[index],
            functions[place],
        ) by {
        lemma_kept_holds(functions, reaches_over(line), functions.len(), functions[place]);
        lemma_sorted_holds(over, over.len(), outer_precedes(), functions[place]);
        let index = choose|index: int|
            0 <= index < listed.len() && listed[index] == functions[place];
        assert(explains(
            explanation.candidates@[index],
            listed[index],
            innermost_upto(listed, listed.len()) == Some(index),
        ));
        assert(stands_for(explanation.candidates@[index], functions[place]));
    }
    assert forall|index: int| 0 <= index < explanation.candidates@.len() implies (
    #[trigger] explanation.candidates@[index]).location.start.line <= line && line
        <= explanation.candidates@[index].location.end.line && exists|place: int|
        0 <= place < functions.len() && stands_for(
            explanation.candidates@[index],
            #[trigger] functions[place],
        ) by {
        assert(explains(
            explanation.candidates@[index],
            listed[index],
            innermost_upto(listed, listed.len()) == Some(index),
        ));
        lemma_sorted_holds(over, over.len(), outer_precedes(), listed[index]);
        assert(listed.contains(listed[index]));
        assert(over.contains(listed[index]));
        lemma_kept_holds(functions, reaches_over(line), functions.len(), listed[index]);
        let place = choose|place: int|
            0 <= place < functions.len() && functions[place] == listed[index];
        assert(stands_for(explanation.candidates@[index], functions[place]));
    }
    total_kept(functions, reaches_over(line));
    assert(functions.map_values(
        |item: FunctionReport|
            if reaches_over(line)(item) {
                1nat
            } else {
                0nat
            },
    ) =~= functions.map_values(
        |function: FunctionReport|
            if function.location.start.line <= line && line <= function.location.end.line {
                1nat
            } else {
                0nat
            },
    ));
}

/// Whether a place in source comes before another.
pub open spec fn earlier(left: Position, right: Position) -> bool {
    left.line < right.line || (left.line == right.line && left.column < right.column)
}

/// Candidates stand in the order in which they start, those that end later first.
pub proof fn outer_candidates_come_first(
    explanation: ExplainReport,
    report: Report,
    path: Seq<char>,
    file: FileReport,
    line: usize,
    left: int,
    right: int,
)
    requires
        explains_line(explanation, report, path, file, line),
        0 <= left < right < explanation.candidates@.len(),
    ensures
        ({
            let first = explanation.candidates@[left].location;
            let second = explanation.candidates@[right].location;
            &&& !earlier(second.start, first.start)
            &&& first.start == second.start ==> !earlier(first.end, second.end)
        }),
{
    let over = kept(file.functions@, reaches_over(line));
    let listed = containing(file.functions@, line);
    let order = outer_precedes();
    text_order_is_total();
    assert forall|first: FunctionReport, second: FunctionReport| #[trigger]
        order(first, second) || order(second, first) by {
        order_pair(text_order(), first.name@, second.name@);
    }
    assert forall|first: FunctionReport, middle: FunctionReport, second: FunctionReport| #[trigger]
        order(first, middle) && #[trigger] order(middle, second) implies order(first, second) by {
        order_triple(text_order(), first.name@, middle.name@, second.name@);
        order_pair(text_order(), first.name@, middle.name@);
        order_pair(text_order(), middle.name@, second.name@);
    }
    sorted_is_ordered(over, order);
    assert(explains(
        explanation.candidates@[left],
        listed[left],
        innermost_upto(listed, listed.len()) == Some(left),
    ));
    assert(explains(
        explanation.candidates@[right],
        listed[right],
        innermost_upto(listed, listed.len()) == Some(right),
    ));
    assert(order(listed[left], listed[right]));
}

/// Where a line has candidates, just one of them is the innermost, and it holds no
/// other that is not as long as itself.
pub proof fn one_candidate_is_the_innermost(
    explanation: ExplainReport,
    report: Report,
    path: Seq<char>,
    file: FileReport,
    line: usize,
)
    requires
        explains_line(explanation, report, path, file, line),
    ensures
        explanation.candidates@.len() > 0 ==> exists|index: int|
            0 <= index < explanation.candidates@.len() && (
            #[trigger] explanation.candidates@[index]).innermost,
        forall|left: int, right: int|
            0 <= left < right < explanation.candidates@.len() ==> !((
            #[trigger] explanation.candidates@[left]).innermost && (
            #[trigger] explanation.candidates@[right]).innermost),
        forall|inner: int, other: int|
            0 <= inner < explanation.candidates@.len() && 0 <= other
                < explanation.candidates@.len() && (
            #[trigger] explanation.candidates@[inner]).innermost ==> {
                let held = explanation.candidates@[inner].location;
                let location = (#[trigger] explanation.candidates@[other]).location;
                location == held || earlier(location.start, held.start) || earlier(
                    held.end,
                    location.end,
                )
            },
{
    let listed = containing(file.functions@, line);
    let candidates = explanation.candidates@;
    nothing_lies_inside_the_innermost(listed);
    assert forall|index: int| 0 <= index < candidates.len() implies (
    #[trigger] candidates[index]).innermost == (innermost_upto(listed, listed.len()) == Some(
        index,
    )) && candidates[index].location == listed[index].location by {
        assert(explains(
            candidates[index],
            listed[index],
            innermost_upto(listed, listed.len()) == Some(index),
        ));
    }
    if candidates.len() > 0 {
        let inner = innermost_upto(listed, listed.len())->Some_0;
        assert(candidates[inner].innermost);
    }
    assert forall|inner: int, other: int|
        0 <= inner < candidates.len() && 0 <= other < candidates.len() && (
        #[trigger] candidates[inner]).innermost implies {
        let held = candidates[inner].location;
        let location = (#[trigger] candidates[other]).location;
        location == held || earlier(location.start, held.start) || earlier(held.end, location.end)
    } by {
        assert(!lies_inside(listed[other].location, listed[inner].location));
    }
}

/// A candidate lists the eight components of its score, each with the units of its
/// own part of the score.
pub proof fn candidates_break_their_scores_down(
    explanation: ExplainReport,
    report: Report,
    path: Seq<char>,
    file: FileReport,
    line: usize,
    index: int,
)
    requires
        explains_line(explanation, report, path, file, line),
        0 <= index < explanation.candidates@.len(),
        explanation.candidates@[index].score.control_decisions * 10 <= usize::MAX,
        explanation.candidates@[index].score.nesting_penalty * 10 <= usize::MAX,
    ensures
        ({
            let score = explanation.candidates@[index].score;
            let parts = explanation.candidates@[index].components@;
            &&& parts.len() == 8
            &&& parts[0].component == ScoreComponent::Boundary && parts[0].units == score.boundary
            &&& parts[1].component == ScoreComponent::ControlDecisions && parts[1].units
                == score.control_decisions * 10
            &&& parts[2].component == ScoreComponent::NestingPenalty && parts[2].units
                == score.nesting_penalty * 10
            &&& parts[3].component == ScoreComponent::BooleanOperators && parts[3].units
                == score.boolean_operator_units
            &&& parts[4].component == ScoreComponent::ExpressionOperations && parts[4].units
                == score.expression_operation_units
            &&& parts[5].component == ScoreComponent::CallSites && parts[5].units
                == score.call_site_units
            &&& parts[6].component == ScoreComponent::ExplicitParameters && parts[6].units
                == score.parameter_units
            &&& parts[7].component == ScoreComponent::MatchArms && parts[7].units
                == score.match_arm_units
        }),
{
    let listed = containing(file.functions@, line);
    let candidate = explanation.candidates@[index];
    assert(explains(
        candidate,
        listed[index],
        innermost_upto(listed, listed.len()) == Some(index),
    ));
    assert(explains_component(candidate.components@[0], listed[index], component_at(0)));
    assert(explains_component(candidate.components@[1], listed[index], component_at(1)));
    assert(explains_component(candidate.components@[2], listed[index], component_at(2)));
    assert(explains_component(candidate.components@[3], listed[index], component_at(3)));
    assert(explains_component(candidate.components@[4], listed[index], component_at(4)));
    assert(explains_component(candidate.components@[5], listed[index], component_at(5)));
    assert(explains_component(candidate.components@[6], listed[index], component_at(6)));
    assert(explains_component(candidate.components@[7], listed[index], component_at(7)));
}

/// A component comes from where the contributions to it stand, and from the
/// callable as a whole where it has units and none of them is placed.
pub proof fn components_come_from_their_contributions(
    explanation: ExplainReport,
    report: Report,
    path: Seq<char>,
    file: FileReport,
    line: usize,
    index: int,
    part: int,
    location: Location,
)
    requires
        explains_line(explanation, report, path, file, line),
        0 <= index < explanation.candidates@.len(),
        0 <= part < 8,
    ensures
        ({
            let candidate = explanation.candidates@[index];
            let given = candidate.score.contributions@;
            let explained = candidate.components@[part];
            let placed = exists|place: int|
                0 <= place < given.len() && (#[trigger] given[place]).component
                    == explained.component && given[place].units > 0;
            let placed_here = exists|place: int|
                0 <= place < given.len() && (#[trigger] given[place]).component
                    == explained.component && given[place].units > 0 && given[place].location
                    == location;
            explained.locations@.contains(location) <==> placed_here || (!placed && explained.units
                > 0 && location == candidate.location)
        }),
{
    let listed = containing(file.functions@, line);
    let candidate = explanation.candidates@[index];
    let function = listed[index];
    assert(explains(candidate, function, innermost_upto(listed, listed.len()) == Some(index)));
    assert(explains_component(candidate.components@[part], function, component_at(part)));
    let component = component_at(part);
    let given = function.score.contributions@;
    let kept_ones = kept(given, contributes(component));
    let placed = kept_ones.map_values(|contribution: ScoreContribution| contribution.location);
    assert forall|place: int|
        0 <= place < given.len() && (#[trigger] given[place]).component == component
            && given[place].units > 0 implies kept_ones.contains(given[place]) by {
        lemma_kept_holds(given, contributes(component), given.len(), given[place]);
    }
    assert forall|at: int| 0 <= at < kept_ones.len() implies given.contains(
        #[trigger] kept_ones[at],
    ) && contributes(component)(kept_ones[at]) by {
        lemma_kept_holds(given, contributes(component), given.len(), kept_ones[at]);
        assert(kept_ones.contains(kept_ones[at]));
    }
    let explained = candidate.components@[part];
    let here = exists|place: int|
        0 <= place < given.len() && (#[trigger] given[place]).component == component
            && given[place].units > 0 && given[place].location == location;
    if here {
        let place = choose|place: int|
            0 <= place < given.len() && (#[trigger] given[place]).component == component
                && given[place].units > 0 && given[place].location == location;
        assert(kept_ones.contains(given[place]));
        let at = choose|at: int| 0 <= at < kept_ones.len() && kept_ones[at] == given[place];
        assert(placed[at] == location);
        assert(placed.contains(location));
    }
    if placed.contains(location) {
        let at = choose|at: int| 0 <= at < placed.len() && placed[at] == location;
        assert(kept_ones[at].location == location);
        let place = choose|place: int|
            0 <= place < given.len() && given[place] == kept_ones[at];
        assert(given[place].component == component);
    }
    if placed.len() > 0 {
        assert(given.contains(kept_ones[0]));
        let place = choose|place: int|
            0 <= place < given.len() && given[place] == kept_ones[0];
        assert(given[place].component == component && given[place].units > 0);
    } else {
        assert forall|place: int|
            0 <= place < given.len() && (#[trigger] given[place]).component == component
                && given[place].units > 0 implies false by {
            assert(kept_ones.contains(given[place]));
        }
        let whole = seq![function.location];
        assert(whole[0] == function.location);
        assert(whole.contains(location) <==> location == function.location);
    }
}

/// Of the calls of a report those are shown with a line whose caller is in the file
/// and starts on the line or before and ends on it or behind.
pub proof fn calls_over_the_line_are_shown(
    explanation: ExplainReport,
    report: Report,
    path: Seq<char>,
    file: FileReport,
    line: usize,
    edge: CallEdge,
)
    requires
        explains_line(explanation, report, path, file, line),
    ensures
        explanation.evidence.call_graph.edges@.contains(edge)
            <==> report.evidence.call_graph.edges@.contains(edge) && edge.caller.path@
            == file.path@ && edge.caller.location.start.line <= line && line
            <= edge.caller.location.end.line,
{
    let all = report.evidence.call_graph.edges@;
    lemma_kept_holds(all, edge_touches(file.path@, line), all.len(), edge);
    if all.contains(edge) {
        let place = choose|place: int| 0 <= place < all.len() && all[place] == edge;
    }
}

}
