//! The report and its parts.
use vstd::prelude::*;
use vstd::string::StringExecFns;
use crate::order::{chained, compare_numbers, number_relation, Relation};
use crate::text::is_blank;
use crate::evidence::{Evidence, FrontendEvidence};

verus! {

/// Stable identifier for the scoring formula embedded in each report.
pub const SCORE_MODEL: &'static str = "structural-v4";

/// Stable identity of the source discovery contract used by a report.
///
/// The v2 contract adds JavaScript and TypeScript source selection, including
/// JSX/TSX extensions and their test/build-tree conventions.
pub const DISCOVERY_CONTRACT: &'static str = "multi-language-v2";

/// Stable identity of the language frontend contract used by a report.
///
/// The implementation behind a frontend may evolve while this contract stays
/// fixed only when its serialized `FileAnalysis` semantics remain compatible.
pub const FRONTEND_CONTRACT: &'static str =
    "rust-syn-v1;python-ruff-0.0.10-py314;javascript-oxc-0.143.0;typescript-oxc-0.143.0";

/// Stable identity of the complete analysis contract. It intentionally keeps
/// the score model separate so consumers can tell formula changes from parser
/// or discovery changes.
pub const ANALYSIS_CONTRACT: &'static str = "analysis-v1";

/// Version of the serialized report envelope and its machine-readable views.
pub const SCHEMA_VERSION: u32 = 2;

/// Source language represented in a report or discovered file.
#[derive(Clone, Copy, Debug, PartialEq, Eq, PartialOrd, Ord, Structural)]
pub enum Language {
    Rust,
    Python,
    JavaScript,
    TypeScript,
}

impl Language {
    pub open spec fn label_text(self) -> Seq<char> {
        match self {
            Language::Rust => "Rust"@,
            Language::Python => "Python"@,
            Language::JavaScript => "JavaScript"@,
            Language::TypeScript => "TypeScript"@,
        }
    }

    pub open spec fn serialized_text(self) -> Seq<char> {
        match self {
            Language::Rust => "rust"@,
            Language::Python => "python"@,
            Language::JavaScript => "javascript"@,
            Language::TypeScript => "typescript"@,
        }
    }

    /// Position in the declared order of languages.
    pub open spec fn rank(self) -> int {
        match self {
            Language::Rust => 0,
            Language::Python => 1,
            Language::JavaScript => 2,
            Language::TypeScript => 3,
        }
    }

    pub fn label(self) -> (text: &'static str)
        ensures
            text@ == self.label_text(),
    {
        match self {
            Language::Rust => "Rust",
            Language::Python => "Python",
            Language::JavaScript => "JavaScript",
            Language::TypeScript => "TypeScript",
        }
    }

    pub fn serialized(self) -> (text: &'static str)
        ensures
            text@ == self.serialized_text(),
    {
        match self {
            Language::Rust => "rust",
            Language::Python => "python",
            Language::JavaScript => "javascript",
            Language::TypeScript => "typescript",
        }
    }

    /// Whether this source language uses the JavaScript/TypeScript frontend
    /// and C-style comments. JSX and TSX are selected by their TypeScript or
    /// JavaScript file language, so callers do not need a second enum.
    pub fn is_javascript_family(self) -> (answer: bool)
        ensures
            answer == (self == Language::JavaScript || self == Language::TypeScript),
    {
        matches!(self, Language::JavaScript | Language::TypeScript)
    }

    pub(crate) fn position(self) -> (rank: usize)
        ensures
            rank == self.rank(),
    {
        match self {
            Language::Rust => 0,
            Language::Python => 1,
            Language::JavaScript => 2,
            Language::TypeScript => 3,
        }
    }
}

/// Versioned contract for discovery and frontend semantics.
#[derive(Debug, PartialEq, Eq)]
pub struct AnalysisContract {
    pub version: String,
    pub frontend: String,
    pub discovery: String,
}

impl Clone for AnalysisContract {
    fn clone(&self) -> (copy: Self)
        ensures
            copy == *self,
    {
        AnalysisContract {
            version: self.version.clone(),
            frontend: self.frontend.clone(),
            discovery: self.discovery.clone(),
        }
    }
}

impl Default for AnalysisContract {
    fn default() -> (contract: Self)
        ensures
            contract.version@.len() == 0,
            contract.frontend@.len() == 0,
            contract.discovery@.len() == 0,
    {
        AnalysisContract {
            version: String::new(),
            frontend: String::new(),
            discovery: String::new(),
        }
    }
}

impl AnalysisContract {
    pub fn current() -> (contract: Self)
        ensures
            contract.version@ == ANALYSIS_CONTRACT@,
            contract.frontend@ == FRONTEND_CONTRACT@,
            contract.discovery@ == DISCOVERY_CONTRACT@,
    {
        AnalysisContract {
            version: ANALYSIS_CONTRACT.to_owned(),
            frontend: FRONTEND_CONTRACT.to_owned(),
            discovery: DISCOVERY_CONTRACT.to_owned(),
        }
    }

    pub fn is_complete(&self) -> (answer: bool)
        ensures
            answer == (!crate::text::blank(self.version@) && !crate::text::blank(self.frontend@)
                && !crate::text::blank(self.discovery@)),
    {
        !is_blank(self.version.as_str()) && !is_blank(self.frontend.as_str()) && !is_blank(
            self.discovery.as_str(),
        )
    }

    /// The text that `display` returns.
    pub open spec fn display_text(self) -> Seq<char> {
        "version="@ + self.version@ + " frontend="@ + self.frontend@ + " discovery="@
            + self.discovery@
    }

    pub fn display(&self) -> (text: String)
        ensures
            text@ == self.display_text(),
    {
        let mut text = "version=".to_owned();
        text.append(self.version.as_str());
        text.append(" frontend=");
        text.append(self.frontend.as_str());
        text.append(" discovery=");
        text.append(self.discovery.as_str());
        text
    }
}

#[derive(Clone, Copy, Debug, PartialEq, Eq, PartialOrd, Ord, Structural)]
pub enum Category {
    Production,
    Test,
}

impl Category {
    /// Position in the declared order.
    pub open spec fn rank(self) -> int {
        match self {
            Category::Production => 0,
            Category::Test => 1,
        }
    }

    pub(crate) fn position(self) -> (rank: usize)
        ensures
            rank == self.rank(),
    {
        match self {
            Category::Production => 0,
            Category::Test => 1,
        }
    }
}

#[derive(Clone, Copy, Debug, PartialEq, Eq, PartialOrd, Ord, Structural)]
pub enum FunctionKind {
    Function,
    Method,
    TraitMethod,
    NestedFunction,
    Closure,
    Lambda,
    ModuleInitializer,
    ClassInitializer,
    ConstInitializer,
    StaticInitializer,
}

impl FunctionKind {
    pub open spec fn serialized_text(self) -> Seq<char> {
        match self {
            FunctionKind::Function => "function"@,
            FunctionKind::Method => "method"@,
            FunctionKind::TraitMethod => "trait_method"@,
            FunctionKind::NestedFunction => "nested_function"@,
            FunctionKind::Closure => "closure"@,
            FunctionKind::Lambda => "lambda"@,
            FunctionKind::ModuleInitializer => "module_initializer"@,
            FunctionKind::ClassInitializer => "class_initializer"@,
            FunctionKind::ConstInitializer => "const_initializer"@,
            FunctionKind::StaticInitializer => "static_initializer"@,
        }
    }

    pub fn serialized(&self) -> (text: &'static str)
        ensures
            text@ == self.serialized_text(),
    {
        match self {
            FunctionKind::Function => "function",
            FunctionKind::Method => "method",
            FunctionKind::TraitMethod => "trait_method",
            FunctionKind::NestedFunction => "nested_function",
            FunctionKind::Closure => "closure",
            FunctionKind::Lambda => "lambda",
            FunctionKind::ModuleInitializer => "module_initializer",
            FunctionKind::ClassInitializer => "class_initializer",
            FunctionKind::ConstInitializer => "const_initializer",
            FunctionKind::StaticInitializer => "static_initializer",
        }
    }

    /// Position in the declared order.
    pub open spec fn rank(self) -> int {
        match self {
            FunctionKind::Function => 0,
            FunctionKind::Method => 1,
            FunctionKind::TraitMethod => 2,
            FunctionKind::NestedFunction => 3,
            FunctionKind::Closure => 4,
            FunctionKind::Lambda => 5,
            FunctionKind::ModuleInitializer => 6,
            FunctionKind::ClassInitializer => 7,
            FunctionKind::ConstInitializer => 8,
            FunctionKind::StaticInitializer => 9,
        }
    }

    pub(crate) fn position(self) -> (rank: usize)
        ensures
            rank == self.rank(),
    {
        match self {
            FunctionKind::Function => 0,
            FunctionKind::Method => 1,
            FunctionKind::TraitMethod => 2,
            FunctionKind::NestedFunction => 3,
            FunctionKind::Closure => 4,
            FunctionKind::Lambda => 5,
            FunctionKind::ModuleInitializer => 6,
            FunctionKind::ClassInitializer => 7,
            FunctionKind::ConstInitializer => 8,
            FunctionKind::StaticInitializer => 9,
        }
    }
}

/// One of the eight additive components in the structural-v4 score.
#[derive(Clone, Copy, Debug, PartialEq, Eq, PartialOrd, Ord, Structural)]
pub enum ScoreComponent {
    Boundary,
    ControlDecisions,
    NestingPenalty,
    BooleanOperators,
    ExpressionOperations,
    CallSites,
    ExplicitParameters,
    MatchArms,
}

impl ScoreComponent {
    /// The components in their declared order.
    pub const ALL: [ScoreComponent; 8] = [
        ScoreComponent::Boundary,
        ScoreComponent::ControlDecisions,
        ScoreComponent::NestingPenalty,
        ScoreComponent::BooleanOperators,
        ScoreComponent::ExpressionOperations,
        ScoreComponent::CallSites,
        ScoreComponent::ExplicitParameters,
        ScoreComponent::MatchArms,
    ];

    pub open spec fn label_text(self) -> Seq<char> {
        match self {
            ScoreComponent::Boundary => "boundary"@,
            ScoreComponent::ControlDecisions => "control decisions"@,
            ScoreComponent::NestingPenalty => "nesting penalty"@,
            ScoreComponent::BooleanOperators => "boolean operators"@,
            ScoreComponent::ExpressionOperations => "expression operations"@,
            ScoreComponent::CallSites => "call sites"@,
            ScoreComponent::ExplicitParameters => "explicit parameters"@,
            ScoreComponent::MatchArms => "match arms"@,
        }
    }

    pub fn label(self) -> (text: &'static str)
        ensures
            text@ == self.label_text(),
    {
        match self {
            ScoreComponent::Boundary => "boundary",
            ScoreComponent::ControlDecisions => "control decisions",
            ScoreComponent::NestingPenalty => "nesting penalty",
            ScoreComponent::BooleanOperators => "boolean operators",
            ScoreComponent::ExpressionOperations => "expression operations",
            ScoreComponent::CallSites => "call sites",
            ScoreComponent::ExplicitParameters => "explicit parameters",
            ScoreComponent::MatchArms => "match arms",
        }
    }

    /// Position in the declared order.
    pub open spec fn rank(self) -> int {
        match self {
            ScoreComponent::Boundary => 0,
            ScoreComponent::ControlDecisions => 1,
            ScoreComponent::NestingPenalty => 2,
            ScoreComponent::BooleanOperators => 3,
            ScoreComponent::ExpressionOperations => 4,
            ScoreComponent::CallSites => 5,
            ScoreComponent::ExplicitParameters => 6,
            ScoreComponent::MatchArms => 7,
        }
    }

    pub(crate) fn position(self) -> (rank: usize)
        ensures
            rank == self.rank(),
    {
        match self {
            ScoreComponent::Boundary => 0,
            ScoreComponent::ControlDecisions => 1,
            ScoreComponent::NestingPenalty => 2,
            ScoreComponent::BooleanOperators => 3,
            ScoreComponent::ExpressionOperations => 4,
            ScoreComponent::CallSites => 5,
            ScoreComponent::ExplicitParameters => 6,
            ScoreComponent::MatchArms => 7,
        }
    }
}

/// The primary key used for the text hotspot ranking.
#[derive(Clone, Copy, Debug, PartialEq, Eq, Structural)]
pub enum SortBy {
    Score,
    Depth,
    Size,
}

impl SortBy {
    pub open spec fn label_text(self) -> Seq<char> {
        match self {
            SortBy::Score => "score"@,
            SortBy::Depth => "depth"@,
            SortBy::Size => "size"@,
        }
    }

    pub fn label(self) -> (text: &'static str)
        ensures
            text@ == self.label_text(),
    {
        match self {
            SortBy::Score => "score",
            SortBy::Depth => "depth",
            SortBy::Size => "size",
        }
    }
}

#[derive(Clone, Copy, Debug, Default, PartialEq, Eq, PartialOrd, Ord, Structural)]
pub struct Position {
    /// One-based source line.
    pub line: usize,
    /// One-based UTF-8 byte column.
    pub column: usize,
}

#[derive(Clone, Copy, Debug, Default, PartialEq, Eq, PartialOrd, Ord, Structural)]
pub struct Location {
    pub start: Position,
    pub end: Position,
}

/// Line by line, then column by column.
pub open spec fn position_relation(left: Position, right: Position) -> Relation {
    chained(
        number_relation(left.line as int, right.line as int),
        number_relation(left.column as int, right.column as int),
    )
}

/// By start, then by end.
pub open spec fn location_relation(left: Location, right: Location) -> Relation {
    chained(position_relation(left.start, right.start), position_relation(left.end, right.end))
}

pub fn compare_positions(left: Position, right: Position) -> (relation: Relation)
    ensures
        relation == position_relation(left, right),
{
    match compare_numbers(left.line, right.line) {
        Relation::Same => compare_numbers(left.column, right.column),
        decided => decided,
    }
}

pub fn compare_locations(left: Location, right: Location) -> (relation: Relation)
    ensures
        relation == location_relation(left, right),
{
    match compare_positions(left.start, right.start) {
        Relation::Same => compare_positions(left.end, right.end),
        decided => decided,
    }
}

#[derive(Clone, Copy, Debug, Default, PartialEq, Eq, Structural)]
pub struct Metrics {
    pub code_lines: usize,
    pub statements: usize,
    /// Count of expression-level operations used by the structural score. Bindings,
    /// paths, literals, fields, borrows, grouping, and parentheses are not
    /// operations by themselves.
    pub expression_operations: usize,
    pub decisions: usize,
    /// Control-flow decisions excluding short-circuit boolean operators.
    pub control_decisions: usize,
    pub nesting_penalty: usize,
    pub max_depth: usize,
    pub macro_calls: usize,
    pub branches: usize,
    pub boolean_operators: usize,
    pub match_arms: usize,
    pub loops: usize,
    pub returns: usize,
    pub mutations: usize,
    pub parameters: usize,
    /// Signature inputs excluding a method receiver.
    pub explicit_parameters: usize,
    pub call_sites: usize,
    pub closures: usize,
    pub unsafe_blocks: usize,
}

/// A score contribution located in the source span that produced it.
///
/// The units use the same integer-tenth convention as `Score::units`. A
/// frontend may aggregate several syntax events into one span, but the sum of
/// all contributions is always exactly the reported score.
#[derive(Clone, Copy, Debug, PartialEq, Eq, Structural)]
pub struct ScoreContribution {
    pub component: ScoreComponent,
    pub units: usize,
    pub location: Location,
}

#[derive(Debug, Default, PartialEq, Eq)]
pub struct Score {
    /// An unbounded integer score. Higher values indicate more structural
    /// signals in the function.
    pub value: usize,
    /// Exact integer-tenth score units. This is equal to `value` and is the
    /// preferred field for machine-readable comparisons.
    pub units: usize,
    /// Human-readable score, formatted in score points.
    pub display: String,
    pub decisions: usize,
    /// Control-decision count, excluding boolean operators.
    pub control_decisions: usize,
    pub nesting_penalty: usize,
    pub boundary: usize,
    pub boolean_operator_units: usize,
    pub call_site_units: usize,
    pub parameter_units: usize,
    pub match_arm_units: usize,
    /// One-tenth-unit charge for each expression operation.
    pub expression_operation_units: usize,
    /// Source-located contributions that add up exactly to `units`.
    pub contributions: Vec<ScoreContribution>,
}

/// Whether two scores agree in every part.
pub open spec fn same_score(left: Score, right: Score) -> bool {
    &&& left.value == right.value
    &&& left.units == right.units
    &&& left.display@ == right.display@
    &&& left.decisions == right.decisions
    &&& left.control_decisions == right.control_decisions
    &&& left.nesting_penalty == right.nesting_penalty
    &&& left.boundary == right.boundary
    &&& left.boolean_operator_units == right.boolean_operator_units
    &&& left.call_site_units == right.call_site_units
    &&& left.parameter_units == right.parameter_units
    &&& left.match_arm_units == right.match_arm_units
    &&& left.expression_operation_units == right.expression_operation_units
    &&& left.contributions@ == right.contributions@
}

impl Clone for Score {
    fn clone(&self) -> (copy: Self)
        ensures
            same_score(copy, *self),
    {
        let contributions = self.contributions.clone();
        assert(contributions@ =~= self.contributions@);
        Score {
            value: self.value,
            units: self.units,
            display: self.display.clone(),
            decisions: self.decisions,
            control_decisions: self.control_decisions,
            nesting_penalty: self.nesting_penalty,
            boundary: self.boundary,
            boolean_operator_units: self.boolean_operator_units,
            call_site_units: self.call_site_units,
            parameter_units: self.parameter_units,
            match_arm_units: self.match_arm_units,
            expression_operation_units: self.expression_operation_units,
            contributions,
        }
    }
}

#[derive(Clone, Copy, Debug, Default, PartialEq, Eq, Structural)]
pub struct LineCounts {
    pub total: usize,
    pub code: usize,
    pub comments: usize,
    pub blank: usize,
}

/// Macro coverage that can be measured from the source currently on disk.
/// `source_tokens` counts lexical tokens in each invocation span, including
/// the macro path and delimiters, without expanding the invocation.
/// `definition_tokens` counts lexical tokens in macro definitions, including
/// their rule bodies, without expanding or parsing those rules as Rust code.
#[derive(Clone, Copy, Debug, Default, PartialEq, Eq, Structural)]
pub struct MacroOpacity {
    pub invocations: usize,
    pub source_tokens: usize,
    /// Number of macro definitions found in source.
    pub definitions: usize,
    /// Lexical tokens in macro definitions, kept separate from invocation
    /// source tokens so changing a rule body remains visible.
    pub definition_tokens: usize,
}

/// Aggregate complexity in exact integer-tenth score units.
#[derive(Clone, Copy, Debug, Default, PartialEq, Eq, Structural)]
pub struct Burden {
    pub production: usize,
    pub test: usize,
    pub total: usize,
}

#[derive(Clone, Debug)]
pub struct FunctionReport {
    /// Unique id for this unit in this analyzed snapshot.
    pub snapshot_id: String,
    /// Lexical fingerprint of the declaration/signature portion.
    pub declaration_fingerprint: String,
    /// Lexical fingerprint of the body/expression portion.
    pub body_fingerprint: String,
    pub name: String,
    pub kind: FunctionKind,
    pub category: Category,
    pub location: Location,
    pub lines: usize,
    /// Source tokens in the complete callable span. Each language frontend
    /// defines its lexical token contract; comments and whitespace are excluded.
    pub tokens: usize,
    pub metrics: Metrics,
    pub score: Score,
}

/// Language-neutral result returned by a source frontend before the analyzer
/// adds path, language, and aggregate metadata.
#[derive(Debug)]
pub struct FileAnalysis {
    pub lines: LineCounts,
    pub tokens: usize,
    pub functions: Vec<FunctionReport>,
    pub macro_opacity: MacroOpacity,
    /// Frontend-owned evidence lowered from the source AST. The analyzer adds
    /// file paths and combines it into [`Report::evidence`].
    pub evidence: FrontendEvidence,
}

#[derive(Clone, Debug)]
pub struct FileReport {
    pub path: String,
    pub language: Language,
    pub lines: LineCounts,
    pub tokens: usize,
    pub functions: Vec<FunctionReport>,
    /// Sum of each callable's score, with nested callable bodies counted only
    /// in their own report.
    pub burden: Burden,
    /// Source macro invocations and definitions in this file. Expansion is
    /// intentionally excluded from the score, so both remain visible opacity
    /// signals.
    pub macro_opacity: MacroOpacity,
}

#[derive(Clone, Copy, Debug, Default, PartialEq, Eq, Structural)]
pub struct Coverage {
    pub discovered_files: usize,
    pub analyzed_files: usize,
    pub failed_files: usize,
    pub test_files: usize,
    pub complete: bool,
}

#[derive(Clone, Copy, Debug, Default, PartialEq, Eq, Structural)]
pub struct CategorySummary {
    pub functions: usize,
    pub total_score: usize,
    pub p95_score: usize,
    pub highest_score: usize,
}

/// Number of analyzed files per source language.
#[derive(Clone, Copy, Debug, Default, PartialEq, Eq, Structural)]
pub struct LanguageCounts {
    pub rust: usize,
    pub python: usize,
    pub javascript: usize,
    pub typescript: usize,
}

#[derive(Clone, Copy, Debug, Default, PartialEq, Eq, Structural)]
pub struct LanguageSummary {
    pub files: usize,
    pub code_lines: usize,
    pub tokens: usize,
    pub production: CategorySummary,
    pub test: CategorySummary,
    pub burden: Burden,
}

#[derive(Clone, Copy, Debug, Default, PartialEq, Eq, Structural)]
pub struct LanguageSummaries {
    pub rust: LanguageSummary,
    pub python: LanguageSummary,
    pub javascript: LanguageSummary,
    pub typescript: LanguageSummary,
}

#[derive(Clone, Copy, Debug, Default, PartialEq, Eq, Structural)]
pub struct Summary {
    pub files: usize,
    pub code_lines: usize,
    pub tokens: usize,
    pub languages: LanguageCounts,
    /// Complete aggregates partitioned by language. These reconcile with the
    /// repository totals and let mixed-language consumers compare like with
    /// like without rebuilding summaries from every callable.
    pub by_language: LanguageSummaries,
    pub production: CategorySummary,
    pub test: CategorySummary,
    /// Sum of the exclusive callable units in every analyzed file.
    pub burden: Burden,
}

#[derive(Clone, Debug, Default, PartialEq, Eq)]
pub struct ReportScope {
    pub selection: String,
    pub language_filter: String,
    pub category_policy: String,
}

#[derive(Debug, PartialEq, Eq)]
pub struct AnalysisError {
    pub path: Option<String>,
    pub kind: ErrorKind,
    pub message: String,
}

#[derive(Clone, Copy, Debug, PartialEq, Eq, Structural)]
pub enum ErrorKind {
    Read,
    Parse,
    Lex,
}

#[derive(Clone, Copy, Debug, PartialEq, Eq, Structural)]
pub enum OutputFormat {
    Text,
    Json,
}

/// A machine-readable analysis report. JSON output serializes this structure
/// directly, so adding fields should remain backwards-compatible.
#[derive(Clone, Debug)]
pub struct Report {
    pub report_kind: String,
    pub schema_version: u32,
    pub tool: String,
    pub version: String,
    /// Version of the source evidence fields attached to each unit.
    pub evidence_version: String,
    pub model: String,
    pub analysis_contract: AnalysisContract,
    pub root: String,
    pub scope: ReportScope,
    pub summary: Summary,
    pub coverage: Coverage,
    pub macro_opacity: MacroOpacity,
    /// Source-only relationships and duplicate statement evidence. Evidence
    /// is serialized separately from the structural score and never changes
    /// score values or burden aggregates.
    pub evidence: Evidence,
    pub files: Vec<FileReport>,
    pub errors: Vec<AnalysisError>,
}

impl Clone for AnalysisError {
    fn clone(&self) -> (copy: Self)
        ensures
            copy == *self,
    {
        AnalysisError {
            path: match &self.path {
                Some(path) => Some(path.clone()),
                None => None,
            },
            kind: self.kind,
            message: self.message.clone(),
        }
    }
}

impl Report {
    pub fn has_errors(&self) -> (answer: bool)
        ensures
            answer == (self.errors@.len() > 0),
    {
        !self.errors.is_empty()
    }
}

}
