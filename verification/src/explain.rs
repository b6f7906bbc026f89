//! Explain and compact machine-readable views over a freshly analyzed report.
//!
//! The analyzer remains the source of truth for scores. This module only
//! selects containing units, groups the score's fixed components, and projects
//! a bounded view while retaining the complete scope and aggregate context.
use vstd::prelude::*;
use vstd::string::StringExecFns;
use crate::call_graph::{count_resolutions, covers};
use crate::deltas::{ComponentDelta, FunctionChange};
use crate::diff::{
    copy_burdens, copy_file_changes, copy_hints, copy_metadata, copy_scope, copy_texts, hint_views,
    BurdenDelta, CallableStatsDelta, Comparison, FileBurdenDelta, FileChanges, MacroOpacityDelta,
    RedistributionHint, ReportMetadata, ScopeSummary,
};
use crate::duplicates::{group_views, DuplicateGroupView};
use crate::evidence::{
    CallEdge, CallGraphEvidence, CallRegion, CallableRef, DuplicateEvidence, DuplicateGroup,
    DuplicateOccurrence, Evidence, EVIDENCE_CONTRACT,
};
use crate::explain_laws::{a_line_is_explained_by_what_is_over_it, stands_for};
use crate::model::{
    compare_positions, position_relation, same_score, AnalysisContract, AnalysisError, Category,
    Coverage, FileReport, FunctionKind, FunctionReport, Language, LanguageCounts, Location,
    MacroOpacity, Report, Score, ScoreComponent, ScoreContribution, SortBy, Summary, SCHEMA_VERSION,
};
use crate::order::{
    chained, compare_numbers, compare_text, kept, kept_upto, number_relation, referents, sorted,
    sorted_mapped, stable_sort, text_relation, Relation,
};
use crate::paths::{display_path, file_name, name_of, shown_path};
use crate::ranking::{rank_functions, ranked, ranked_views, RankedView, Selection};
use crate::regions::{region_views, CallRegionView};
use crate::sums::{clipped, multiplied};
use crate::text::{magnitude, same_text};

verus! {

/// Semantic evidence, which a syntax-only analysis cannot give.
#[derive(Clone, Debug, PartialEq, Eq)]
pub struct EvidencePlaceholder {
    pub kind: String,
    pub status: String,
    pub detail: String,
}

/// Whether a list says that there is no semantic evidence, and nothing else.
pub open spec fn no_semantic_evidence(evidence: Seq<EvidencePlaceholder>) -> bool {
    &&& evidence.len() == 1
    &&& evidence[0].kind@ == "semantic-evidence"@
    &&& evidence[0].status@ == "unavailable"@
    &&& evidence[0].detail@
        == "No evidence module is configured; this explanation is syntax-only."@
}

fn unavailable_evidence() -> (evidence: Vec<EvidencePlaceholder>)
    ensures
        no_semantic_evidence(evidence@),
{
    let mut evidence: Vec<EvidencePlaceholder> = Vec::new();
    evidence.push(
        EvidencePlaceholder {
            kind: "semantic-evidence".to_owned(),
            status: "unavailable".to_owned(),
            detail: "No evidence module is configured; this explanation is syntax-only.".to_owned(),
        },
    );
    evidence
}

/// The complete scope context shared by compact analysis output.
#[derive(Debug)]
pub struct AnalysisScope {
    pub root: String,
    pub files: usize,
    pub discovered_files: usize,
    pub analyzed_files: usize,
    pub languages: LanguageCounts,
}

#[derive(Clone, Copy, Debug, PartialEq, Eq, Structural)]
pub struct AggregateSnapshot {
    pub summary: Summary,
    pub macro_opacity: MacroOpacity,
}

/// A bounded analysis view. `returned` and `total` make truncation explicit;
/// consumers must never mistake this for a full report.
#[derive(Debug)]
pub struct CompactAnalysis {
    pub report_kind: String,
    pub schema_version: u32,
    pub tool: String,
    pub version: String,
    pub model: String,
    pub analysis_contract: AnalysisContract,
    pub scope: AnalysisScope,
    pub coverage: Coverage,
    pub aggregates: AggregateSnapshot,
    pub selected_categories: Vec<Category>,
    pub returned: usize,
    pub total: usize,
    pub functions: Vec<CompactFunction>,
    pub errors: Vec<AnalysisError>,
}

#[derive(Debug)]
pub struct CompactFunction {
    pub path: String,
    pub language: Language,
    pub name: String,
    pub kind: FunctionKind,
    pub category: Category,
    pub location: Location,
    pub lines: usize,
    pub tokens: usize,
    pub score: CompactScore,
}

#[derive(Debug)]
pub struct CompactScore {
    pub units: usize,
    pub display: String,
}

/// A callable in a compact view.
pub open spec fn compact_of(item: RankedView) -> CompactFunction {
    CompactFunction {
        path: item.file.path,
        language: item.file.language,
        name: item.function.name,
        kind: item.function.kind,
        category: item.function.category,
        location: item.function.location,
        lines: item.function.lines,
        tokens: item.function.tokens,
        score: CompactScore {
            units: item.function.score.units,
            display: item.function.score.display,
        },
    }
}

fn compact_function(file: &FileReport, function: &FunctionReport) -> (result: CompactFunction)
    ensures
        result == compact_of(RankedView { file: *file, function: *function }),
{
    CompactFunction {
        path: file.path.clone(),
        language: file.language,
        name: function.name.clone(),
        kind: function.kind,
        category: function.category,
        location: function.location,
        lines: function.lines,
        tokens: function.tokens,
        score: CompactScore {
            units: function.score.units,
            display: function.score.display.clone(),
        },
    }
}

/// Which categories the flags of a command select.
pub open spec fn selection(tests: bool, all: bool) -> Selection {
    if all {
        Selection { production: true, test: true }
    } else if tests {
        Selection { production: false, test: true }
    } else {
        Selection { production: true, test: false }
    }
}

pub(crate) fn select(tests: bool, all: bool) -> (result: Selection)
    ensures
        result == selection(tests, all),
{
    if all {
        Selection { production: true, test: true }
    } else if tests {
        Selection { production: false, test: true }
    } else {
        Selection { production: true, test: false }
    }
}

/// The selected categories, production first.
pub open spec fn category_list(chosen: Selection) -> Seq<Category> {
    (if chosen.production {
        seq![Category::Production]
    } else {
        seq![]
    }) + (if chosen.test {
        seq![Category::Test]
    } else {
        seq![]
    })
}

fn selected_categories(chosen: Selection) -> (categories: Vec<Category>)
    ensures
        categories@ == category_list(chosen),
{
    let mut categories: Vec<Category> = Vec::new();
    if chosen.production {
        categories.push(Category::Production);
    }
    if chosen.test {
        categories.push(Category::Test);
    }
    assert(categories@ =~= category_list(chosen));
    categories
}

/// The smaller of a bound and a length.
pub open spec fn bounded(top: usize, total: nat) -> nat {
    if top < total {
        top as nat
    } else {
        total
    }
}

/// Whether a view is the compact view of a report.
pub open spec fn compacts(
    view: CompactAnalysis,
    report: Report,
    top: usize,
    chosen: Selection,
    sort: SortBy,
) -> bool {
    let listed = ranked(report.files@, chosen, sort);
    &&& view.report_kind@ == "analysis_compact"@
    &&& view.schema_version == SCHEMA_VERSION
    &&& view.tool == report.tool
    &&& view.version == report.version
    &&& view.model == report.model
    &&& view.analysis_contract == report.analysis_contract
    &&& view.scope == (AnalysisScope {
        root: report.root,
        files: report.summary.files,
        discovered_files: report.coverage.discovered_files,
        analyzed_files: report.coverage.analyzed_files,
        languages: report.summary.languages,
    })
    &&& view.coverage == report.coverage
    &&& view.aggregates == (AggregateSnapshot {
        summary: report.summary,
        macro_opacity: report.macro_opacity,
    })
    &&& view.selected_categories@ == category_list(chosen)
    &&& view.returned == bounded(top, listed.len())
    &&& view.total == listed.len()
    &&& view.functions@ == listed.take(bounded(top, listed.len()) as int).map_values(
        |item: RankedView| compact_of(item),
    )
    &&& view.errors@ == report.errors@
}

fn copy_errors(errors: &Vec<AnalysisError>) -> (copy: Vec<AnalysisError>)
    ensures
        copy@ == errors@,
{
    let copy = errors.clone();
    assert(copy@ =~= errors@);
    copy
}

/// Build a bounded analysis projection while preserving all aggregate values.
pub fn compact_analysis(report: &Report, top: usize, tests: bool, all: bool, sort: SortBy) -> (view: CompactAnalysis)
    ensures
        compacts(view, *report, top, selection(tests, all), sort),
{
    let chosen = select(tests, all);
    let listed = rank_functions(&report.files, chosen, sort);
    let ghost views = ranked_views(listed@);
    let total: usize = listed.len();
    let mut functions: Vec<CompactFunction> = Vec::new();
    while functions.len() < total && functions.len() < top
        invariant
            total == listed@.len(),
            views == ranked_views(listed@),
            functions@.len() <= total,
            functions@.len() <= top,
            functions@ =~= views.take(functions@.len() as int).map_values(
                |item: RankedView| compact_of(item),
            ),
        decreases total - functions@.len(),
    {
        let item = &listed[functions.len()];
        assert(views[functions@.len() as int] == item@);
        functions.push(compact_function(item.file, item.function));
    }
    CompactAnalysis {
        report_kind: "analysis_compact".to_owned(),
        schema_version: SCHEMA_VERSION,
        tool: report.tool.clone(),
        version: report.version.clone(),
        model: report.model.clone(),
        analysis_contract: report.analysis_contract.clone(),
        scope: AnalysisScope {
            root: report.root.clone(),
            files: report.summary.files,
            discovered_files: report.coverage.discovered_files,
            analyzed_files: report.coverage.analyzed_files,
            languages: report.summary.languages,
        },
        coverage: report.coverage,
        aggregates: AggregateSnapshot {
            summary: report.summary,
            macro_opacity: report.macro_opacity,
        },
        selected_categories: selected_categories(chosen),
        returned: functions.len(),
        total,
        functions,
        errors: copy_errors(&report.errors),
    }
}

/// A bounded diff projection. Aggregate deltas and scope metadata are kept in
/// full, while the changed callable list is explicitly truncated.
#[derive(Debug)]
pub struct CompactDiff {
    pub report_kind: String,
    pub schema_version: u32,
    pub comparable: bool,
    pub tool: String,
    pub version: String,
    pub model: String,
    pub analysis_contract: AnalysisContract,
    pub scope: ScopeSummary,
    pub coverage: DiffCoverage,
    pub aggregates: DiffAggregates,
    pub before: ReportMetadata,
    pub after: ReportMetadata,
    pub file_changes: FileChanges,
    pub returned: usize,
    pub total: usize,
    pub functions: Vec<FunctionChange>,
    pub possible_redistributions: Vec<RedistributionHint>,
    pub warnings: Vec<String>,
}

#[derive(Clone, Copy, Debug, PartialEq, Eq, Structural)]
pub struct DiffCoverage {
    pub complete: bool,
    pub before_complete: bool,
    pub after_complete: bool,
}

#[derive(Debug)]
pub struct DiffAggregates {
    pub burden: BurdenDelta,
    pub callables: CallableStatsDelta,
    pub components: Vec<ComponentDelta>,
    pub macro_opacity: MacroOpacityDelta,
    pub file_burdens: Vec<FileBurdenDelta>,
}

/// Whether a change may stand before another in a compact view: by the size of
/// its difference, then by path and name.
pub open spec fn compact_precedes() -> spec_fn(FunctionChange, FunctionChange) -> bool {
    |left: FunctionChange, right: FunctionChange|
        chained(
            number_relation(
                magnitude(right.delta as int) as int,
                magnitude(left.delta as int) as int,
            ),
            chained(
                text_relation(left.path@, right.path@),
                text_relation(left.name@, right.name@),
            ),
        ) != Relation::After
}

fn compact_in_order(left: &FunctionChange, right: &FunctionChange) -> (answer: bool)
    ensures
        answer == compact_precedes()(*left, *right),
{
    let size = crate::deltas::compare_magnitudes(right.delta, left.delta);
    if size != Relation::Same {
        return size == Relation::Before;
    }
    let path = compare_text(left.path.as_str(), right.path.as_str());
    if path != Relation::Same {
        return path == Relation::Before;
    }
    compare_text(left.name.as_str(), right.name.as_str()) != Relation::After
}

/// All changes of callables, the largest difference first.
pub open spec fn all_changes(comparison: Comparison) -> Seq<FunctionChange> {
    sorted(
        comparison.functions.changed@ + comparison.functions.moved@ + comparison.functions.added@
            + comparison.functions.removed@,
        compact_precedes(),
    )
}

/// Whether a view is the compact view of a comparison.
pub open spec fn compacts_diff(view: CompactDiff, comparison: Comparison, top: usize) -> bool {
    let listed = all_changes(comparison);
    let complete = comparison.scope.coverage_complete;
    &&& view.report_kind@ == "diff_compact"@
    &&& view.schema_version == SCHEMA_VERSION
    &&& view.comparable == comparison.comparable
    &&& view.tool@ == "kompass"@
    &&& view.version == comparison.after.version
    &&& view.model == comparison.before.model
    &&& view.analysis_contract == comparison.before.analysis_contract
    &&& view.scope == comparison.scope
    &&& view.coverage == (DiffCoverage {
        complete,
        before_complete: complete,
        after_complete: complete,
    })
    &&& view.aggregates.burden == comparison.burden
    &&& view.aggregates.callables == comparison.callables
    &&& view.aggregates.components@ == comparison.components@
    &&& view.aggregates.macro_opacity == comparison.macro_opacity
    &&& view.aggregates.file_burdens@ == comparison.file_burdens@
    &&& view.before == comparison.before
    &&& view.after == comparison.after
    &&& view.file_changes.added@ == comparison.file_changes.added@
    &&& view.file_changes.removed@ == comparison.file_changes.removed@
    &&& view.returned == bounded(top, listed.len())
    &&& view.total == listed.len()
    &&& view.functions@ == listed.take(bounded(top, listed.len()) as int)
    &&& hint_views(view.possible_redistributions@) == hint_views(
        comparison.possible_redistributions@,
    )
    &&& view.warnings@ == comparison.warnings@
}

fn push_changes(all: &mut Vec<FunctionChange>, changes: &Vec<FunctionChange>)
    ensures
        final(all)@ == old(all)@ + changes@,
{
    let ghost held = all@;
    let mut index: usize = 0;
    while index < changes.len()
        invariant
            index <= changes@.len(),
            all@ =~= held + changes@.take(index as int),
        decreases changes@.len() - index,
    {
        all.push(changes[index].clone());
        index += 1;
    }
    assert(all@ =~= held + changes@);
}

pub fn compact_diff(comparison: &Comparison, top: usize) -> (view: CompactDiff)
    ensures
        compacts_diff(view, *comparison, top),
{
    let mut all: Vec<FunctionChange> = Vec::new();
    push_changes(&mut all, &comparison.functions.changed);
    push_changes(&mut all, &comparison.functions.moved);
    push_changes(&mut all, &comparison.functions.added);
    push_changes(&mut all, &comparison.functions.removed);
    assert(all@ =~= comparison.functions.changed@ + comparison.functions.moved@
        + comparison.functions.added@ + comparison.functions.removed@);
    let mut functions = stable_sort(all, compact_in_order, Ghost(compact_precedes()));
    let ghost listed = functions@;
    let total: usize = functions.len();
    if top < total {
        functions.truncate(top);
    }
    assert(functions@ =~= listed.take(bounded(top, listed.len()) as int));
    let complete = comparison.scope.coverage_complete;
    let components = comparison.components.clone();
    assert(components@ =~= comparison.components@);
    CompactDiff {
        report_kind: "diff_compact".to_owned(),
        schema_version: SCHEMA_VERSION,
        comparable: comparison.comparable,
        tool: "kompass".to_owned(),
        version: comparison.after.version.clone(),
        model: comparison.before.model.clone(),
        analysis_contract: comparison.before.analysis_contract.clone(),
        scope: copy_scope(&comparison.scope),
        coverage: DiffCoverage { complete, before_complete: complete, after_complete: complete },
        aggregates: DiffAggregates {
            burden: comparison.burden,
            callables: comparison.callables,
            components,
            macro_opacity: comparison.macro_opacity,
            file_burdens: copy_burdens(&comparison.file_burdens),
        },
        before: copy_metadata(&comparison.before),
        after: copy_metadata(&comparison.after),
        file_changes: copy_file_changes(&comparison.file_changes),
        returned: functions.len(),
        total,
        functions,
        possible_redistributions: copy_hints(&comparison.possible_redistributions),
        warnings: copy_texts(&comparison.warnings),
    }
}

#[derive(Debug)]
pub struct ExplainScope {
    pub root: String,
    pub path: String,
    pub line: usize,
    pub files: usize,
}

#[derive(Debug)]
pub struct ExplainReport {
    pub report_kind: String,
    pub schema_version: u32,
    pub tool: String,
    pub version: String,
    pub model: String,
    pub evidence_version: String,
    pub analysis_contract: AnalysisContract,
    pub scope: ExplainScope,
    pub coverage: Coverage,
    pub aggregates: AggregateSnapshot,
    pub returned: usize,
    pub total: usize,
    pub candidates: Vec<ExplainCandidate>,
    /// The part of the report's evidence that touches the candidates.
    pub evidence: Evidence,
    pub errors: Vec<AnalysisError>,
}

#[derive(Debug)]
pub struct ExplainCandidate {
    pub name: String,
    pub kind: FunctionKind,
    pub category: Category,
    pub location: Location,
    pub lines: usize,
    pub tokens: usize,
    pub score: Score,
    pub innermost: bool,
    pub components: Vec<ExplainComponent>,
    pub evidence: Vec<EvidencePlaceholder>,
}

#[derive(Debug)]
pub struct ExplainComponent {
    pub component: ScoreComponent,
    pub units: usize,
    pub locations: Vec<Location>,
}

/// The units of one component of a score.
pub open spec fn units_of(score: Score, component: ScoreComponent) -> usize {
    match component {
        ScoreComponent::Boundary => score.boundary,
        ScoreComponent::ControlDecisions => clipped((score.control_decisions * 10) as nat),
        ScoreComponent::NestingPenalty => clipped((score.nesting_penalty * 10) as nat),
        ScoreComponent::BooleanOperators => score.boolean_operator_units,
        ScoreComponent::ExpressionOperations => score.expression_operation_units,
        ScoreComponent::CallSites => score.call_site_units,
        ScoreComponent::ExplicitParameters => score.parameter_units,
        ScoreComponent::MatchArms => score.match_arm_units,
    }
}

pub fn component_units(score: &Score, component: ScoreComponent) -> (units: usize)
    ensures
        units == units_of(*score, component),
{
    match component {
        ScoreComponent::Boundary => score.boundary,
        ScoreComponent::ControlDecisions => multiplied(score.control_decisions, 10),
        ScoreComponent::NestingPenalty => multiplied(score.nesting_penalty, 10),
        ScoreComponent::BooleanOperators => score.boolean_operator_units,
        ScoreComponent::ExpressionOperations => score.expression_operation_units,
        ScoreComponent::CallSites => score.call_site_units,
        ScoreComponent::ExplicitParameters => score.parameter_units,
        ScoreComponent::MatchArms => score.match_arm_units,
    }
}

/// Whether a contribution counts toward a component.
pub open spec fn contributes(component: ScoreComponent) -> spec_fn(ScoreContribution) -> bool {
    |contribution: ScoreContribution|
        contribution.component == component && contribution.units > 0
}

/// Where the units of a component come from: the whole callable, where nothing
/// more exact is known.
pub open spec fn component_locations(
    function: FunctionReport,
    component: ScoreComponent,
) -> Seq<Location> {
    let located = kept(function.score.contributions@, contributes(component)).map_values(
        |contribution: ScoreContribution| contribution.location,
    );
    if located.len() == 0 && units_of(function.score, component) > 0 {
        seq![function.location]
    } else {
        located
    }
}

/// Whether a component is explained as it should be.
pub open spec fn explains_component(
    explained: ExplainComponent,
    function: FunctionReport,
    component: ScoreComponent,
) -> bool {
    &&& explained.component == component
    &&& explained.units == units_of(function.score, component)
    &&& explained.locations@ == component_locations(function, component)
}

fn explain_component(function: &FunctionReport, component: ScoreComponent) -> (explained: ExplainComponent)
    ensures
        explains_component(explained, *function, component),
{
    let units: usize = component_units(&function.score, component);
    let contributions = &function.score.contributions;
    let ghost locate = |contribution: ScoreContribution| contribution.location;
    let mut locations: Vec<Location> = Vec::new();
    let mut index: usize = 0;
    assert(locations@ =~= kept_upto(
        contributions@,
        contributes(component),
        0,
    ).map_values(locate));
    while index < contributions.len()
        invariant
            index <= contributions@.len(),
            locate == |contribution: ScoreContribution| contribution.location,
            locations@ == kept_upto(
                contributions@,
                contributes(component),
                index as nat,
            ).map_values(locate),
        decreases contributions@.len() - index,
    {
        let contribution = contributions[index];
        let ghost held = kept_upto(contributions@, contributes(component), index as nat);
        if contribution.component == component && contribution.units > 0 {
            locations.push(contribution.location);
            assert(held.push(contribution).map_values(locate) =~= held.map_values(locate).push(
                contribution.location,
            ));
        }
        index += 1;
    }
    if locations.is_empty() && units > 0 {
        locations.push(function.location);
        assert(locations@ =~= seq![function.location]);
    }
    ExplainComponent { component, units, locations }
}

/// The components in their declared order.
pub open spec fn component_at(index: int) -> ScoreComponent {
    if index == 0 {
        ScoreComponent::Boundary
    } else if index == 1 {
        ScoreComponent::ControlDecisions
    } else if index == 2 {
        ScoreComponent::NestingPenalty
    } else if index == 3 {
        ScoreComponent::BooleanOperators
    } else if index == 4 {
        ScoreComponent::ExpressionOperations
    } else if index == 5 {
        ScoreComponent::CallSites
    } else if index == 6 {
        ScoreComponent::ExplicitParameters
    } else {
        ScoreComponent::MatchArms
    }
}

/// Whether a candidate explains a callable.
pub open spec fn explains(
    candidate: ExplainCandidate,
    function: FunctionReport,
    innermost: bool,
) -> bool {
    &&& candidate.name == function.name
    &&& candidate.kind == function.kind
    &&& candidate.category == function.category
    &&& candidate.location == function.location
    &&& candidate.lines == function.lines
    &&& candidate.tokens == function.tokens
    &&& same_score(candidate.score, function.score)
    &&& candidate.innermost == innermost
    &&& candidate.components@.len() == 8
    &&& forall|index: int|
        0 <= index < 8 ==> explains_component(
            #[trigger] candidate.components@[index],
            function,
            component_at(index),
        )
    &&& no_semantic_evidence(candidate.evidence@)
}

impl ExplainCandidate {
    fn new(function: &FunctionReport, innermost: bool) -> (candidate: Self)
        ensures
            explains(candidate, *function, innermost),
    {
        let mut components: Vec<ExplainComponent> = Vec::new();
        components.push(explain_component(function, ScoreComponent::Boundary));
        components.push(explain_component(function, ScoreComponent::ControlDecisions));
        components.push(explain_component(function, ScoreComponent::NestingPenalty));
        components.push(explain_component(function, ScoreComponent::BooleanOperators));
        components.push(explain_component(function, ScoreComponent::ExpressionOperations));
        components.push(explain_component(function, ScoreComponent::CallSites));
        components.push(explain_component(function, ScoreComponent::ExplicitParameters));
        components.push(explain_component(function, ScoreComponent::MatchArms));
        ExplainCandidate {
            name: function.name.clone(),
            kind: function.kind,
            category: function.category,
            location: function.location,
            lines: function.lines,
            tokens: function.tokens,
            score: function.score.clone(),
            innermost,
            components,
            evidence: unavailable_evidence(),
        }
    }
}

/// Whether a span reaches over a line.
pub open spec fn covers_line(location: Location, line: usize) -> bool {
    location.start.line <= line <= location.end.line
}

fn is_over_line(location: &Location, line: usize) -> (answer: bool)
    ensures
        answer == covers_line(*location, line),
{
    location.start.line <= line && line <= location.end.line
}

/// The callables whose span reaches over a line.
pub open spec fn reaches_over(line: usize) -> spec_fn(FunctionReport) -> bool {
    |function: FunctionReport| covers_line(function.location, line)
}

/// Whether a callable may stand before another: the outer one first.
pub open spec fn outer_precedes() -> spec_fn(FunctionReport, FunctionReport) -> bool {
    |left: FunctionReport, right: FunctionReport|
        chained(
            number_relation(
                left.location.start.line as int,
                right.location.start.line as int,
            ),
            chained(
                number_relation(
                    left.location.start.column as int,
                    right.location.start.column as int,
                ),
                chained(
                    number_relation(
                        right.location.end.line as int,
                        left.location.end.line as int,
                    ),
                    chained(
                        number_relation(
                            right.location.end.column as int,
                            left.location.end.column as int,
                        ),
                        text_relation(left.name@, right.name@),
                    ),
                ),
            ),
        ) != Relation::After
}

fn outer_in_order(left: &&FunctionReport, right: &&FunctionReport) -> (answer: bool)
    ensures
        answer == outer_precedes()(**left, **right),
{
    let line = compare_numbers(left.location.start.line, right.location.start.line);
    if line != Relation::Same {
        return line == Relation::Before;
    }
    let column = compare_numbers(left.location.start.column, right.location.start.column);
    if column != Relation::Same {
        return column == Relation::Before;
    }
    let end_line = compare_numbers(right.location.end.line, left.location.end.line);
    if end_line != Relation::Same {
        return end_line == Relation::Before;
    }
    let end_column = compare_numbers(right.location.end.column, left.location.end.column);
    if end_column != Relation::Same {
        return end_column == Relation::Before;
    }
    compare_text(left.name.as_str(), right.name.as_str()) != Relation::After
}

/// The callables over a line, the outer ones first.
pub open spec fn containing(functions: Seq<FunctionReport>, line: usize) -> Seq<FunctionReport> {
    sorted(kept(functions, reaches_over(line)), outer_precedes())
}

/// How far a span reaches, and where it starts.
pub open spec fn span_measure(location: Location) -> (int, int, int, int) {
    (
        if location.end.line > location.start.line {
            location.end.line - location.start.line
        } else {
            0
        },
        if location.end.column > location.start.column {
            location.end.column - location.start.column
        } else {
            0
        },
        location.start.line as int,
        location.start.column as int,
    )
}

/// Whether a span is smaller than another.
pub open spec fn smaller_span(left: Location, right: Location) -> bool {
    let a = span_measure(left);
    let b = span_measure(right);
    chained(
        number_relation(a.0, b.0),
        chained(
            number_relation(a.1, b.1),
            chained(number_relation(a.2, b.2), number_relation(a.3, b.3)),
        ),
    ) == Relation::Before
}

pub fn span_size(location: &Location) -> (size: (usize, usize, usize, usize))
    ensures
        (size.0 as int, size.1 as int, size.2 as int, size.3 as int) == span_measure(*location),
{
    (
        if location.end.line > location.start.line {
            location.end.line - location.start.line
        } else {
            0
        },
        if location.end.column > location.start.column {
            location.end.column - location.start.column
        } else {
            0
        },
        location.start.line,
        location.start.column,
    )
}

fn is_smaller_span(left: &Location, right: &Location) -> (answer: bool)
    ensures
        answer == smaller_span(*left, *right),
{
    let a = span_size(left);
    let b = span_size(right);
    if a.0 != b.0 {
        return a.0 < b.0;
    }
    if a.1 != b.1 {
        return a.1 < b.1;
    }
    if a.2 != b.2 {
        return a.2 < b.2;
    }
    a.3 < b.3
}

/// Whether a span lies within another that reaches further.
pub open spec fn lies_inside(inner: Location, outer: Location) -> bool {
    &&& position_relation(outer.start, inner.start) != Relation::After
    &&& position_relation(inner.end, outer.end) != Relation::After
    &&& inner != outer
}

fn is_inside(inner: &Location, outer: &Location) -> (answer: bool)
    ensures
        answer == lies_inside(*inner, *outer),
{
    compare_positions(outer.start, inner.start) != Relation::After && compare_positions(
        inner.end,
        outer.end,
    ) != Relation::After && *inner != *outer
}

/// Whether none of the first `count` callables lies inside one of them.
pub open spec fn encloses_none(functions: Seq<FunctionReport>, index: int, count: nat) -> bool
    decreases count,
{
    count == 0 || !lies_inside(functions[count - 1].location, functions[index].location)
        && encloses_none(functions, index, (count - 1) as nat)
}

fn is_bare(functions: &Vec<&FunctionReport>, index: usize) -> (answer: bool)
    requires
        index < functions@.len(),
    ensures
        answer == encloses_none(referents(functions@), index as int, functions@.len()),
{
    let ghost values = referents(functions@);
    let mut bare: bool = true;
    let mut other: usize = 0;
    assert(values[index as int] == *functions@[index as int]);
    while other < functions.len()
        invariant
            index < functions@.len(),
            other <= functions@.len(),
            values == referents(functions@),
            values[index as int] == *functions@[index as int],
            bare == encloses_none(values, index as int, other as nat),
        decreases functions@.len() - other,
    {
        assert(values[other as int] == *functions@[other as int]);
        if is_inside(&functions[other].location, &functions[index].location) {
            bare = false;
        }
        other += 1;
    }
    bare
}

/// Among the first `count` callables, the first with the smallest span of those
/// that have none of all callables inside.
pub open spec fn innermost_upto(functions: Seq<FunctionReport>, count: nat) -> Option<int>
    decreases count,
{
    if count == 0 {
        None
    } else {
        let earlier = innermost_upto(functions, (count - 1) as nat);
        if !encloses_none(functions, count - 1, functions.len()) {
            earlier
        } else {
            match earlier {
                Some(index) if !smaller_span(
                    functions[count - 1].location,
                    functions[index].location,
                ) => Some(index),
                _ => Some(count - 1),
            }
        }
    }
}

proof fn lemma_encloses_none(functions: Seq<FunctionReport>, index: int, count: nat)
    ensures
        encloses_none(functions, index, count) == (forall|other: int|
            0 <= other < count ==> !lies_inside(
                (#[trigger] functions[other]).location,
                functions[index].location,
            )),
    decreases count,
{
    if count > 0 {
        lemma_encloses_none(functions, index, (count - 1) as nat);
        if encloses_none(functions, index, count) {
            assert forall|other: int| 0 <= other < count implies !lies_inside(
                (#[trigger] functions[other]).location,
                functions[index].location,
            ) by {}
        } else if lies_inside(functions[count - 1].location, functions[index].location) {
            assert(lies_inside(functions[count - 1].location, functions[index].location));
        }
    }
}

proof fn lemma_some_bare(functions: Seq<FunctionReport>, count: nat) -> (bare: int)
    requires
        0 < count <= functions.len(),
    ensures
        0 <= bare < count,
        forall|other: int|
            0 <= other < count ==> !lies_inside(
                (#[trigger] functions[other]).location,
                functions[bare].location,
            ),
    decreases count,
{
    if count == 1 {
        0
    } else {
        let earlier = lemma_some_bare(functions, (count - 1) as nat);
        if lies_inside(functions[count - 1].location, functions[earlier].location) {
            count - 1
        } else {
            earlier
        }
    }
}

proof fn lemma_innermost(functions: Seq<FunctionReport>, count: nat)
    requires
        count <= functions.len(),
    ensures
        innermost_upto(functions, count) matches Some(index) ==> 0 <= index < count
            && encloses_none(functions, index, functions.len()) && forall|other: int|
            0 <= other < count && encloses_none(functions, other, functions.len())
                ==> !smaller_span(
                (#[trigger] functions[other]).location,
                functions[index].location,
            ),
        innermost_upto(functions, count) is None ==> forall|other: int|
            0 <= other < count ==> !#[trigger] encloses_none(functions, other, functions.len()),
    decreases count,
{
    if count > 0 {
        lemma_innermost(functions, (count - 1) as nat);
    }
}

/// Wherever callables are explained, just one of them is the innermost: no other
/// lies inside it, and no other with none inside has a smaller span.
pub proof fn nothing_lies_inside_the_innermost(functions: Seq<FunctionReport>)
    ensures
        functions.len() > 0 <==> innermost_upto(functions, functions.len()) is Some,
        innermost_upto(functions, functions.len()) matches Some(index) ==> {
            &&& 0 <= index < functions.len()
            &&& forall|other: int|
                0 <= other < functions.len() ==> !lies_inside(
                    (#[trigger] functions[other]).location,
                    functions[index].location,
                )
            &&& forall|other: int|
                0 <= other < functions.len() && encloses_none(functions, other, functions.len())
                    ==> !smaller_span(
                    (#[trigger] functions[other]).location,
                    functions[index].location,
                )
        },
{
    lemma_innermost(functions, functions.len());
    if functions.len() > 0 {
        let bare = lemma_some_bare(functions, functions.len());
        lemma_encloses_none(functions, bare, functions.len());
    }
    if let Some(index) = innermost_upto(functions, functions.len()) {
        lemma_encloses_none(functions, index, functions.len());
    }
}

fn find_innermost(functions: &Vec<&FunctionReport>) -> (innermost: Option<usize>)
    ensures
        match (innermost, innermost_upto(referents(functions@), functions@.len())) {
            (Some(found), Some(expected)) => found == expected,
            (None, None) => true,
            _ => false,
        },
{
    let ghost values = referents(functions@);
    let mut innermost: Option<usize> = None;
    let mut index: usize = 0;
    while index < functions.len()
        invariant
            index <= functions@.len(),
            values == referents(functions@),
            values.len() == functions@.len(),
            match (innermost, innermost_upto(values, index as nat)) {
                (Some(found), Some(expected)) => found == expected && found < index,
                (None, None) => true,
                _ => false,
            },
        decreases functions@.len() - index,
    {
        assert(values[index as int] == *functions@[index as int]);
        if is_bare(functions, index) {
            match innermost {
                None => {
                    innermost = Some(index);
                },
                Some(best) => {
                    assert(values[best as int] == *functions@[best as int]);
                    if is_smaller_span(&functions[index].location, &functions[best].location) {
                        innermost = Some(index);
                    }
                },
            }
        }
        index += 1;
    }
    innermost
}

/// The source file that a request to explain names.
#[derive(Debug)]
pub struct ExplainTarget {
    /// The path as it was given.
    pub shown: String,
    /// The canonical path.
    pub path: String,
    /// Whether a file is there.
    pub is_file: bool,
}

/// Whether a file has a path.
pub open spec fn has_path(path: Seq<char>) -> spec_fn(FileReport) -> bool {
    |file: FileReport| file.path@ == path
}

/// Whether the path of a file ends with the name that another path ends with.
pub open spec fn has_name_of(path: Seq<char>) -> spec_fn(FileReport) -> bool {
    |file: FileReport|
        file_name(file.path@) is Some && file_name(file.path@) == file_name(path)
}

/// The first of the first `count` files that is wanted.
pub open spec fn first_file(
    files: Seq<FileReport>,
    wanted: spec_fn(FileReport) -> bool,
    count: nat,
) -> Option<int>
    decreases count,
{
    if count == 0 {
        None
    } else {
        match first_file(files, wanted, (count - 1) as nat) {
            Some(index) => Some(index),
            None => if wanted(files[count - 1]) {
                Some(count - 1)
            } else {
                None
            },
        }
    }
}

/// The file of a report that a path means: the one with its path as shown, or
/// else the first with its name.
pub open spec fn meant_file(report: Report, path: Seq<char>) -> Option<int> {
    let by_path = first_file(
        report.files@,
        has_path(shown_path(path, report.root@)),
        report.files@.len(),
    );
    if by_path is Some {
        by_path
    } else {
        first_file(report.files@, has_name_of(path), report.files@.len())
    }
}

proof fn lemma_first_file(
    files: Seq<FileReport>,
    wanted: spec_fn(FileReport) -> bool,
    count: nat,
    total: nat,
)
    requires
        count <= total,
        first_file(files, wanted, count) is Some,
    ensures
        first_file(files, wanted, total) == first_file(files, wanted, count),
    decreases total,
{
    if count < total {
        lemma_first_file(files, wanted, count, (total - 1) as nat);
    }
}

fn find_file(report: &Report, path: &str, target: &str) -> (found: Option<usize>)
    requires
        target@ == shown_path(path@, report.root@),
    ensures
        match (found, meant_file(*report, path@)) {
            (Some(index), Some(expected)) => index == expected && index < report.files@.len(),
            (None, None) => true,
            _ => false,
        },
{
    let files = &report.files;
    let ghost by_path = has_path(target@);
    let ghost by_name = has_name_of(path@);
    let mut index: usize = 0;
    while index < files.len()
        invariant
            index <= files@.len(),
            files@ == report.files@,
            target@ == shown_path(path@, report.root@),
            by_path == has_path(target@),
            first_file(files@, by_path, index as nat) is None,
        decreases files@.len() - index,
    {
        if same_text(files[index].path.as_str(), target) {
            proof {
                lemma_first_file(files@, by_path, (index + 1) as nat, files@.len());
            }
            return Some(index);
        }
        index += 1;
    }
    let name = match name_of(path) {
        Some(name) => name,
        None => {
            proof {
                lemma_no_name(files@, path@, files@.len());
            }
            return None;
        },
    };
    index = 0;
    while index < files.len()
        invariant
            index <= files@.len(),
            files@ == report.files@,
            target@ == shown_path(path@, report.root@),
            first_file(files@, has_path(shown_path(path@, report.root@)), files@.len()) is None,
            by_name == has_name_of(path@),
            file_name(path@) == Some(name@),
            first_file(files@, by_name, index as nat) is None,
        decreases files@.len() - index,
    {
        let own = name_of(files[index].path.as_str());
        if let Some(own_name) = own {
            if own_name == name {
                proof {
                    lemma_first_file(files@, by_name, (index + 1) as nat, files@.len());
                }
                return Some(index);
            }
        }
        index += 1;
    }
    None
}

proof fn lemma_no_name(files: Seq<FileReport>, path: Seq<char>, count: nat)
    requires
        file_name(path) is None,
        count <= files.len(),
    ensures
        first_file(files, has_name_of(path), count) is None,
    decreases count,
{
    if count > 0 {
        lemma_no_name(files, path, (count - 1) as nat);
    }
}

/// Whether a callable of a path reaches over a line.
pub open spec fn touches(callable: CallableRef, path: Seq<char>, line: usize) -> bool {
    callable.path@ == path && covers_line(callable.location, line)
}

fn is_touched(callable: &CallableRef, path: &str, line: usize) -> (answer: bool)
    ensures
        answer == touches(*callable, path@, line),
{
    is_over_line(&callable.location, line) && same_text(callable.path.as_str(), path)
}

/// Whether a group occurs in a callable of a path over a line.
pub open spec fn group_touches(
    occurrences: Seq<DuplicateOccurrence>,
    path: Seq<char>,
    line: usize,
) -> bool {
    exists|index: int|
        0 <= index < occurrences.len() && touches(
            (#[trigger] occurrences[index]).callable,
            path,
            line,
        )
}

fn is_group_touched(group: &DuplicateGroup, path: &str, line: usize) -> (answer: bool)
    ensures
        answer == group_touches(group@.occurrences, path@, line),
{
    let mut index: usize = 0;
    while index < group.occurrences.len()
        invariant
            index <= group.occurrences@.len(),
            forall|earlier: int|
                0 <= earlier < index ==> !touches(
                    (#[trigger] group.occurrences@[earlier]).callable,
                    path@,
                    line,
                ),
        decreases group.occurrences@.len() - index,
    {
        if is_touched(&group.occurrences[index].callable, path, line) {
            return true;
        }
        index += 1;
    }
    false
}

/// The edges from callables of a path over a line.
pub open spec fn edge_touches(path: Seq<char>, line: usize) -> spec_fn(CallEdge) -> bool {
    |edge: CallEdge| touches(edge.caller, path, line)
}

/// The regions of callables of a path over a line.
pub open spec fn region_touches(path: Seq<char>, line: usize) -> spec_fn(CallRegionView) -> bool {
    |region: CallRegionView| touches(region.root, path, line)
}

/// The duplicates in callables of a path over a line.
pub open spec fn duplicate_touches(path: Seq<char>, line: usize) -> spec_fn(
    DuplicateGroupView,
) -> bool {
    |group: DuplicateGroupView| group_touches(group.occurrences, path, line)
}

/// Whether evidence is the part of another that touches a line of a path.
pub open spec fn relevant(part: Evidence, whole: Evidence, path: Seq<char>, line: usize) -> bool {
    &&& part.contract@ == EVIDENCE_CONTRACT@
    &&& part.call_graph.edges@ == kept(whole.call_graph.edges@, edge_touches(path, line))
    &&& covers(part.call_graph.coverage, part.call_graph.edges@)
    &&& region_views(part.call_graph.regions@) == kept(
        region_views(whole.call_graph.regions@),
        region_touches(path, line),
    )
    &&& group_views(part.duplicates.groups@) == kept(
        group_views(whole.duplicates.groups@),
        duplicate_touches(path, line),
    )
    &&& part.duplicates.omitted == whole.duplicates.omitted
}

fn relevant_evidence(whole: &Evidence, path: &str, line: usize) -> (part: Evidence)
    ensures
        relevant(part, *whole, path@, line),
{
    let all_edges = &whole.call_graph.edges;
    let mut edges: Vec<CallEdge> = Vec::new();
    let mut index: usize = 0;
    while index < all_edges.len()
        invariant
            index <= all_edges@.len(),
            edges@ == kept_upto(all_edges@, edge_touches(path@, line), index as nat),
        decreases all_edges@.len() - index,
    {
        if is_touched(&all_edges[index].caller, path, line) {
            edges.push(all_edges[index].clone());
        }
        index += 1;
    }
    let all_regions = &whole.call_graph.regions;
    let ghost regions_wanted = region_touches(path@, line);
    let mut regions: Vec<CallRegion> = Vec::new();
    index = 0;
    assert(region_views(regions@) =~= Seq::<CallRegionView>::empty());
    while index < all_regions.len()
        invariant
            index <= all_regions@.len(),
            regions_wanted == region_touches(path@, line),
            region_views(regions@) == kept_upto(
                region_views(all_regions@),
                regions_wanted,
                index as nat,
            ),
        decreases all_regions@.len() - index,
    {
        let ghost held = region_views(regions@);
        assert(region_views(all_regions@)[index as int] == all_regions@[index as int]@);
        if is_touched(&all_regions[index].root, path, line) {
            regions.push(all_regions[index].clone());
            assert(region_views(regions@) =~= held.push(all_regions@[index as int]@));
        }
        index += 1;
    }
    let all_groups = &whole.duplicates.groups;
    let ghost groups_wanted = duplicate_touches(path@, line);
    let mut groups: Vec<DuplicateGroup> = Vec::new();
    index = 0;
    assert(group_views(groups@) =~= Seq::<DuplicateGroupView>::empty());
    while index < all_groups.len()
        invariant
            index <= all_groups@.len(),
            groups_wanted == duplicate_touches(path@, line),
            group_views(groups@) == kept_upto(
                group_views(all_groups@),
                groups_wanted,
                index as nat,
            ),
        decreases all_groups@.len() - index,
    {
        let ghost held = group_views(groups@);
        assert(group_views(all_groups@)[index as int] == all_groups@[index as int]@);
        if is_group_touched(&all_groups[index], path, line) {
            groups.push(all_groups[index].clone());
            assert(group_views(groups@) =~= held.push(all_groups@[index as int]@));
        }
        index += 1;
    }
    assert(region_views(all_regions@).len() == all_regions@.len());
    assert(group_views(all_groups@).len() == all_groups@.len());
    let coverage = count_resolutions(&edges);
    Evidence {
        contract: EVIDENCE_CONTRACT.to_owned(),
        call_graph: CallGraphEvidence { coverage, edges, regions },
        duplicates: DuplicateEvidence { groups, omitted: whole.duplicates.omitted },
    }
}

/// Whether an explanation is right for a file of a report and a line.
pub open spec fn explains_line(
    explanation: ExplainReport,
    report: Report,
    path: Seq<char>,
    file: FileReport,
    line: usize,
) -> bool {
    let listed = containing(file.functions@, line);
    &&& explanation.report_kind@ == "explain"@
    &&& explanation.schema_version == SCHEMA_VERSION
    &&& explanation.tool == report.tool
    &&& explanation.version == report.version
    &&& explanation.model == report.model
    &&& explanation.evidence_version == report.evidence_version
    &&& explanation.analysis_contract == report.analysis_contract
    &&& explanation.scope.root == report.root
    &&& explanation.scope.path@ == shown_path(path, report.root@)
    &&& explanation.scope.line == line
    &&& explanation.scope.files == report.summary.files
    &&& explanation.coverage == report.coverage
    &&& explanation.aggregates == (AggregateSnapshot {
        summary: report.summary,
        macro_opacity: report.macro_opacity,
    })
    &&& explanation.returned == listed.len()
    &&& explanation.total == listed.len()
    &&& explanation.candidates@.len() == listed.len()
    &&& forall|index: int|
        0 <= index < listed.len() ==> explains(
            #[trigger] explanation.candidates@[index],
            listed[index],
            innermost_upto(listed, listed.len()) == Some(index),
        )
    &&& relevant(explanation.evidence, report.evidence, file.path@, line)
    &&& explanation.errors@ == report.errors@
}

/// Why a request to explain is refused, if it is.
pub open spec fn explain_refusal(report: Report, target: ExplainTarget, line: usize) -> Option<
    Seq<char>,
> {
    if line == 0 {
        Some("--line must be at least 1"@)
    } else if !target.is_file {
        Some("explain expects a source file, but "@ + target.shown@ + " is not a file"@)
    } else if meant_file(report, target.path@) is None {
        Some("no analyzed file record matches "@ + target.shown@)
    } else {
        None
    }
}

/// Explain every analyzed unit whose source span contains `line` in a file.
/// The caller performs analysis immediately before invoking this function.
pub fn explain_report(report: &Report, target: &ExplainTarget, line: usize) -> (result: Result<
    ExplainReport,
    String,
>)
    ensures
        match (result, explain_refusal(*report, *target, line)) {
            (Ok(explanation), None) => explains_line(
                explanation,
                *report,
                target.path@,
                report.files@[meant_file(*report, target.path@)->Some_0],
                line,
            ),
            (Err(message), Some(expected)) => message@ == expected,
            _ => false,
        },
        result matches Ok(explanation) ==> forall|index: int|
            0 <= index < explanation.candidates@.len() ==> (
            #[trigger] explanation.candidates@[index]).location.start.line <= line && line
                <= explanation.candidates@[index].location.end.line,
        result matches Ok(explanation) ==> ({
            let functions = report.files@[meant_file(*report, target.path@)->Some_0].functions@;
            forall|place: int|
                0 <= place < functions.len() && (#[trigger] functions[place]).location.start.line
                    <= line && line <= functions[place].location.end.line ==> exists|index: int|
                    0 <= index < explanation.candidates@.len() && (
                    #[trigger] explanation.candidates@[index]).name == functions[place].name
                        && explanation.candidates@[index].location == functions[place].location
        }),
{
    if line == 0 {
        return Err("--line must be at least 1".to_owned());
    }
    if !target.is_file {
        let mut message = "explain expects a source file, but ".to_owned();
        message.append(target.shown.as_str());
        message.append(" is not a file");
        return Err(message);
    }
    let shown = display_path(target.path.as_str(), report.root.as_str());
    let file_index: usize = match find_file(report, target.path.as_str(), shown.as_str()) {
        Some(index) => index,
        None => {
            let mut message = "no analyzed file record matches ".to_owned();
            message.append(target.shown.as_str());
            return Err(message);
        },
    };
    let file = &report.files[file_index];
    let mut over: Vec<&FunctionReport> = Vec::new();
    let mut index: usize = 0;
    assert(referents(over@) =~= Seq::<FunctionReport>::empty());
    while index < file.functions.len()
        invariant
            index <= file.functions@.len(),
            referents(over@) == kept_upto(file.functions@, reaches_over(line), index as nat),
        decreases file.functions@.len() - index,
    {
        let ghost held = referents(over@);
        let function = &file.functions[index];
        if is_over_line(&function.location, line) {
            over.push(function);
            assert(referents(over@) =~= held.push(*function));
        }
        index += 1;
    }
    let ghost order = |left: &FunctionReport, right: &FunctionReport|
        outer_precedes()(*left, *right);
    proof {
        sorted_mapped(over@, order, |function: &FunctionReport| *function, outer_precedes());
    }
    let listed = stable_sort(over, outer_in_order, Ghost(order));
    let ghost values = referents(listed@);
    assert(values == containing(file.functions@, line));
    assert(values.len() == listed@.len());
    let innermost = find_innermost(&listed);
    let mut candidates: Vec<ExplainCandidate> = Vec::new();
    while candidates.len() < listed.len()
        invariant
            candidates@.len() <= listed@.len(),
            values == referents(listed@),
            match (innermost, innermost_upto(values, values.len())) {
                (Some(found), Some(expected)) => found == expected,
                (None, None) => true,
                _ => false,
            },
            forall|index: int|
                0 <= index < candidates@.len() ==> explains(
                    #[trigger] candidates@[index],
                    values[index],
                    innermost_upto(values, values.len()) == Some(index),
                ),
        decreases listed@.len() - candidates@.len(),
    {
        let place: usize = candidates.len();
        let is_innermost: bool = match innermost {
            Some(found) => found == place,
            None => false,
        };
        assert(values[place as int] == *listed@[place as int]);
        candidates.push(ExplainCandidate::new(listed[place], is_innermost));
    }
    let explanation = ExplainReport {
        report_kind: "explain".to_owned(),
        schema_version: SCHEMA_VERSION,
        tool: report.tool.clone(),
        version: report.version.clone(),
        model: report.model.clone(),
        evidence_version: report.evidence_version.clone(),
        analysis_contract: report.analysis_contract.clone(),
        scope: ExplainScope {
            root: report.root.clone(),
            path: shown,
            line,
            files: report.summary.files,
        },
        coverage: report.coverage,
        aggregates: AggregateSnapshot {
            summary: report.summary,
            macro_opacity: report.macro_opacity,
        },
        returned: candidates.len(),
        total: candidates.len(),
        candidates,
        evidence: relevant_evidence(&report.evidence, file.path.as_str(), line),
        errors: copy_errors(&report.errors),
    };
    proof {
        a_line_is_explained_by_what_is_over_it(explanation, *report, target.path@, *file, line);
        let functions = file.functions@;
        assert forall|place: int|
            0 <= place < functions.len() && (#[trigger] functions[place]).location.start.line
                <= line && line <= functions[place].location.end.line implies exists|index: int|
            0 <= index < explanation.candidates@.len() && (
            #[trigger] explanation.candidates@[index]).name == functions[place].name
                && explanation.candidates@[index].location == functions[place].location by {
            let index = choose|index: int|
                0 <= index < explanation.candidates@.len() && stands_for(
                    #[trigger] explanation.candidates@[index],
                    functions[place],
                );
            assert(explanation.candidates@[index].name == functions[place].name);
        }
    }
    Ok(explanation)
}

}
