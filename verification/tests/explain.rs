use kompass::explain::{component_units, span_size};
use kompass::model::{Location, Position, Score, ScoreComponent, ScoreContribution};

fn sample_score() -> Score {
    let location = Location {
        start: Position { line: 1, column: 1 },
        end: Position { line: 4, column: 2 },
    };
    Score {
        value: 45,
        units: 45,
        boundary: 10,
        control_decisions: 1,
        nesting_penalty: 1,
        boolean_operator_units: 5,
        expression_operation_units: 3,
        call_site_units: 2,
        parameter_units: 2,
        match_arm_units: 1,
        contributions: vec![ScoreContribution {
            component: ScoreComponent::Boundary,
            units: 10,
            location,
        }],
        ..Score::default()
    }
}

#[test]
fn component_projection_always_has_eight_components() {
    let score = sample_score();
    let names = ScoreComponent::ALL;
    assert_eq!(names.len(), 8);
    assert_eq!(component_units(&score, ScoreComponent::Boundary), 10);
}

#[test]
fn span_order_prefers_the_smallest_containing_unit() {
    let outer = Location {
        start: Position { line: 1, column: 1 },
        end: Position {
            line: 10,
            column: 1,
        },
    };
    let inner = Location {
        start: Position { line: 3, column: 1 },
        end: Position { line: 4, column: 1 },
    };
    assert!(span_size(&inner) < span_size(&outer));
}
