//! Callable units: what each takes up of the source, and its report.
use vstd::prelude::*;
use vstd::utf8::encode_utf8;
use crate::identity::{fingerprint_of, lexical_fingerprint, source_part};
use crate::model::{
    Category, FunctionKind, FunctionReport, Language, Location, ScoreComponent, ScoreContribution,
};
use crate::score::{reconciled_upto, score_with_contributions, scores};
use crate::signals::{
    contributions_upto, list_contributions, measure_signals, measures, PendingContribution, Signal,
};
use crate::spans::{
    count_marked_lines, count_tokens_in, end_position_at, marked_lines, position_at, tokens_within,
    LineSpan, LineTable, TokenRange,
};
use crate::sums::clipped;
use crate::syntax::SyntaxNode;
use crate::text::{join, joined, texts};

verus! {

/// A range of bytes of the source.
#[derive(Clone, Copy, Debug, PartialEq, Eq, Structural)]
pub struct ByteRange {
    pub start: usize,
    pub end: usize,
}

/// A callable unit before it is placed in lines.
#[derive(Debug)]
pub struct Unit {
    pub name: String,
    pub kind: FunctionKind,
    pub category: Category,
    pub full: ByteRange,
    pub declaration: ByteRange,
    pub body: ByteRange,
    pub parameters: usize,
    /// The parameters that count, without a receiver.
    pub explicit: Vec<ByteRange>,
    pub signals: Vec<Signal>,
}

/// The plain content of a unit.
pub struct UnitView {
    pub name: Seq<char>,
    pub kind: FunctionKind,
    pub category: Category,
    pub full: ByteRange,
    pub declaration: ByteRange,
    pub body: ByteRange,
    pub parameters: usize,
    pub explicit: Seq<ByteRange>,
    pub signals: Seq<Signal>,
}

impl View for Unit {
    type V = UnitView;

    open spec fn view(&self) -> UnitView {
        UnitView {
            name: self.name@,
            kind: self.kind,
            category: self.category,
            full: self.full,
            declaration: self.declaration,
            body: self.body,
            parameters: self.parameters,
            explicit: self.explicit@,
            signals: self.signals@,
        }
    }
}

/// The plain contents of units.
pub open spec fn unit_views(units: Seq<Unit>) -> Seq<UnitView> {
    units.map_values(|unit: Unit| unit@)
}

pub fn push_unit(units: &mut Vec<Unit>, unit: Unit)
    ensures
        unit_views(final(units)@) == unit_views(old(units)@).push(unit@),
{
    let ghost held = unit_views(units@);
    units.push(unit);
    assert(unit_views(units@) =~= held.push(unit@));
}

/// The bytes that a node spans.
pub open spec fn node_range(node: SyntaxNode) -> ByteRange {
    ByteRange { start: node.start, end: node.end }
}

/// What a list of statements spans, or `full` where there is none.
pub open spec fn body_range(statements: Seq<SyntaxNode>, full: ByteRange) -> ByteRange {
    if statements.len() == 0 {
        full
    } else {
        ByteRange { start: statements[0].start, end: statements.last().end }
    }
}

/// What of a unit stands before its body.
pub open spec fn declaration_range(full: ByteRange, body: ByteRange) -> ByteRange {
    ByteRange {
        start: full.start,
        end: if body.start > full.start {
            body.start
        } else {
            full.start
        },
    }
}

/// What nodes span.
pub open spec fn ranges(nodes: Seq<SyntaxNode>) -> Seq<ByteRange> {
    nodes.map_values(|node: SyntaxNode| node_range(node))
}

pub(crate) fn list_ranges(nodes: &Vec<SyntaxNode>, skipped: usize) -> (result: Vec<ByteRange>)
    requires
        skipped <= nodes@.len(),
    ensures
        result@ == ranges(nodes@.skip(skipped as int)),
{
    let mut result: Vec<ByteRange> = Vec::new();
    let mut index: usize = skipped;
    while index < nodes.len()
        invariant
            skipped <= index <= nodes@.len(),
            result@ =~= ranges(nodes@.skip(skipped as int)).take(index - skipped),
        decreases nodes@.len() - index,
    {
        result.push(ByteRange { start: nodes[index].start, end: nodes[index].end });
        index += 1;
    }
    assert(result@ =~= ranges(nodes@.skip(skipped as int)));
    result
}

pub(crate) fn span_of(node: &SyntaxNode) -> (range: ByteRange)
    ensures
        range == node_range(*node),
{
    ByteRange { start: node.start, end: node.end }
}

pub(crate) fn span_declaration(full: ByteRange, body: ByteRange) -> (range: ByteRange)
    ensures
        range == declaration_range(full, body),
{
    ByteRange {
        start: full.start,
        end: if body.start > full.start {
            body.start
        } else {
            full.start
        },
    }
}

/// The name of something in nested scopes.
pub open spec fn qualified(scope: Seq<Seq<char>>, name: Seq<char>) -> Seq<char> {
    joined(scope.push(name), "::"@)
}

pub fn qualified_name(scope: &Vec<String>, name: &str) -> (result: String)
    ensures
        result@ == qualified(texts(scope@), name@),
{
    let parts = with_scope(scope, name);
    join(&parts, "::")
}

/// Scopes with one more inside.
pub fn with_scope(scope: &Vec<String>, name: &str) -> (result: Vec<String>)
    ensures
        texts(result@) == texts(scope@).push(name@),
{
    let mut result = scope.clone();
    assert(result@ =~= scope@);
    let ghost held = texts(result@);
    result.push(name.to_owned());
    assert(texts(result@) =~= held.push(name@));
    result
}

/// A source file with what its lines and tokens are.
#[derive(Debug)]
pub struct SourceMap<'a> {
    pub source: &'a str,
    pub language: Language,
    pub table: LineTable,
    /// Which lines hold code.
    pub code: Vec<bool>,
    pub tokens: Vec<TokenRange>,
    /// Whether a span ends no further than the text of its last line.
    pub clamp_ends: bool,
}

/// The plain content of a source map.
pub struct SourceMapView {
    pub source: Seq<char>,
    pub language: Language,
    pub lines: Seq<LineSpan>,
    pub code: Seq<bool>,
    pub tokens: Seq<TokenRange>,
    pub clamp_ends: bool,
}

impl<'a> View for SourceMap<'a> {
    type V = SourceMapView;

    open spec fn view(&self) -> SourceMapView {
        SourceMapView {
            source: self.source@,
            language: self.language,
            lines: self.table.lines@,
            code: self.code@,
            tokens: self.tokens@,
            clamp_ends: self.clamp_ends,
        }
    }
}

/// A range of bytes as lines and columns.
pub open spec fn located(map: SourceMapView, range: ByteRange) -> Location {
    Location {
        start: position_at(map.lines, range.start),
        end: if map.clamp_ends {
            end_position_at(map.lines, range.end)
        } else {
            position_at(map.lines, range.end)
        },
    }
}

/// All that is known of where the units of a score come from.
pub open spec fn unit_contributions(unit: UnitView) -> Seq<PendingContribution> {
    contributions_upto(unit.signals, unit.signals.len()) + unit.explicit.map_values(
        |range: ByteRange|
            PendingContribution {
                component: ScoreComponent::ExplicitParameters,
                units: 2,
                start: range.start,
                end: range.end,
            },
    ).push(
        PendingContribution {
            component: ScoreComponent::Boundary,
            units: 10,
            start: unit.full.start,
            end: unit.full.end,
        },
    )
}

/// A contribution at its lines and columns.
pub open spec fn placed(map: SourceMapView, pending: PendingContribution) -> ScoreContribution {
    ScoreContribution {
        component: pending.component,
        units: pending.units,
        location: located(map, ByteRange { start: pending.start, end: pending.end }),
    }
}

/// Contributions at their lines and columns.
pub open spec fn all_placed(
    map: SourceMapView,
    pending: Seq<PendingContribution>,
) -> Seq<ScoreContribution> {
    pending.map_values(|item: PendingContribution| placed(map, item))
}

/// The number of lines that a span touches.
pub open spec fn line_span(location: Location) -> usize {
    clipped(
        if location.end.line > location.start.line {
            (location.end.line - location.start.line + 1) as nat
        } else {
            1
        },
    )
}

/// Whether a report is that of a unit.
pub open spec fn reports(report: FunctionReport, unit: UnitView, map: SourceMapView) -> bool {
    let location = located(map, unit.full);
    let bytes = encode_utf8(map.source);
    &&& report.snapshot_id@.len() == 0
    &&& report.declaration_fingerprint@ == fingerprint_of(
        source_part(bytes, unit.declaration.start as int, unit.declaration.end as int),
        map.language,
    )
    &&& report.body_fingerprint@ == fingerprint_of(
        source_part(bytes, unit.body.start as int, unit.body.end as int),
        map.language,
    )
    &&& report.name@ == unit.name
    &&& report.kind == unit.kind
    &&& report.category == unit.category
    &&& report.location == location
    &&& report.lines == line_span(location)
    &&& report.tokens == tokens_within(
        map.tokens,
        unit.full.start as int,
        unit.full.end as int,
        map.tokens.len(),
    )
    &&& measures(
        report.metrics,
        unit.signals,
        marked_lines(map.lines, map.code, unit.full.start as int, unit.full.end as int) as usize,
        unit.parameters,
        unit.explicit.len() as usize,
    )
    &&& scores(report.score, report.metrics)
    &&& report.score.contributions@ == reconciled_upto(
        report.score,
        all_placed(map, unit_contributions(unit)),
        location,
        8,
    )
}

impl<'a> SourceMap<'a> {
    pub open spec fn well_formed(self) -> bool {
        self.table.well_formed()
    }

    pub fn locate(&self, range: ByteRange) -> (location: Location)
        requires
            self.well_formed(),
        ensures
            location == located(self@, range),
    {
        let end = if self.clamp_ends {
            self.table.end_position(range.end)
        } else {
            self.table.position(range.end)
        };
        Location { start: self.table.position(range.start), end }
    }

    fn place_all(&self, unit: &Unit) -> (result: Vec<ScoreContribution>)
        requires
            self.well_formed(),
        ensures
            result@ == all_placed(self@, unit_contributions(unit@)),
    {
        let ghost whole = unit_contributions(unit@);
        let mut pending: Vec<PendingContribution> = list_contributions(&unit.signals);
        let ghost first = pending@;
        let mut index: usize = 0;
        while index < unit.explicit.len()
            invariant
                index <= unit.explicit@.len(),
                whole == unit_contributions(unit@),
                first == contributions_upto(unit.signals@, unit.signals@.len()),
                pending@ =~= whole.take(first.len() + index),
            decreases unit.explicit@.len() - index,
        {
            let range = unit.explicit[index];
            pending.push(
                PendingContribution {
                    component: ScoreComponent::ExplicitParameters,
                    units: 2,
                    start: range.start,
                    end: range.end,
                },
            );
            index += 1;
        }
        pending.push(
            PendingContribution {
                component: ScoreComponent::Boundary,
                units: 10,
                start: unit.full.start,
                end: unit.full.end,
            },
        );
        assert(pending@ =~= whole);
        let mut result: Vec<ScoreContribution> = Vec::new();
        index = 0;
        while index < pending.len()
            invariant
                index <= pending@.len(),
                self.well_formed(),
                pending@ == whole,
                result@ =~= all_placed(self@, whole).take(index as int),
            decreases pending@.len() - index,
        {
            let item = pending[index];
            result.push(
                ScoreContribution {
                    component: item.component,
                    units: item.units,
                    location: self.locate(ByteRange { start: item.start, end: item.end }),
                },
            );
            index += 1;
        }
        assert(result@ =~= all_placed(self@, whole));
        result
    }

    /// The report of a unit.
    pub fn make_report(&self, unit: &Unit) -> (report: FunctionReport)
        requires
            self.well_formed(),
        ensures
            reports(report, unit@, self@),
    {
        let location = self.locate(unit.full);
        let lines: usize = if location.end.line > location.start.line {
            (location.end.line - location.start.line).saturating_add(1)
        } else {
            1
        };
        let code_lines: usize = count_marked_lines(
            &self.table,
            &self.code,
            unit.full.start,
            unit.full.end,
        );
        let metrics = measure_signals(
            &unit.signals,
            code_lines,
            unit.parameters,
            unit.explicit.len(),
        );
        let given = self.place_all(unit);
        let score = score_with_contributions(&metrics, location, &given);
        FunctionReport {
            snapshot_id: String::new(),
            declaration_fingerprint: lexical_fingerprint(
                self.source,
                unit.declaration.start,
                unit.declaration.end,
                self.language,
            ),
            body_fingerprint: lexical_fingerprint(
                self.source,
                unit.body.start,
                unit.body.end,
                self.language,
            ),
            name: unit.name.clone(),
            kind: unit.kind,
            category: unit.category,
            location,
            lines,
            tokens: count_tokens_in(&self.tokens, unit.full.start, unit.full.end),
            metrics,
            score,
        }
    }

    /// The reports of units, in their order.
    pub fn make_reports(&self, units: &Vec<Unit>) -> (result: Vec<FunctionReport>)
        requires
            self.well_formed(),
        ensures
            reports_all(result@, unit_views(units@), self@),
    {
        let ghost views = unit_views(units@);
        let mut result: Vec<FunctionReport> = Vec::new();
        while result.len() < units.len()
            invariant
                result@.len() <= units@.len(),
                views == unit_views(units@),
                self.well_formed(),
                forall|index: int|
                    0 <= index < result@.len() ==> reports(
                        #[trigger] result@[index],
                        views[index],
                        self@,
                    ),
            decreases units@.len() - result@.len(),
        {
            let unit = &units[result.len()];
            assert(views[result@.len() as int] == unit@);
            result.push(self.make_report(unit));
        }
        result
    }
}

/// Whether reports are those of units, in their order.
pub open spec fn reports_all(
    functions: Seq<FunctionReport>,
    units: Seq<UnitView>,
    map: SourceMapView,
) -> bool {
    &&& functions.len() == units.len()
    &&& forall|index: int|
        0 <= index < functions.len() ==> reports(#[trigger] functions[index], units[index], map)
}

}
