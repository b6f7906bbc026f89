//! From source files to one report.
//!
//! Each source file is analyzed independently. A file that cannot be read,
//! lexed, or parsed is recorded as an error while the other files still produce
//! a useful partial report.
use vstd::prelude::*;
use crate::discover::LanguageFilter;
use crate::evidence::{
    build, builds, does_evidence_fit, evidence_fits, EvidenceFile, FrontendEvidence,
};
use crate::identity::{assign_snapshot_ids, function_snapshot, same_but_id, EVIDENCE_VERSION};
use crate::javascript;
use crate::model::{
    AnalysisContract, AnalysisError, Burden, Category, Coverage, ErrorKind, FileAnalysis,
    FileReport, FunctionReport, Language, LineCounts, MacroOpacity, Report, ReportScope,
    ANALYSIS_CONTRACT, DISCOVERY_CONTRACT, FRONTEND_CONTRACT, SCHEMA_VERSION, SCORE_MODEL,
};
use crate::modules::{all_edges, resolve_modules, KnownFile, PlacedModule};
use crate::order::{
    chained, compare_numbers, compare_text, number_relation, sorted, sorted_length, stable_sort,
    text_relation, Relation,
};
use crate::paths::{display_path, shown_path};
use crate::python;
use crate::reachability::{discover_test_context_files, test_only};
use crate::rust;
use crate::summary::{
    bears, do_totals_fit, macro_sum, summarize, summarize_burden, summarize_macro_opacity,
    summarizes, totals_fit,
};

verus! {

/// The version that reports carry.
pub const TOOL_VERSION: &'static str = "0.3.0";

/// How reports keep tests apart from production code.
pub const CATEGORY_POLICY: &'static str = "production-test-separated-v1";

/// A source file with its text, or why it cannot be read.
#[derive(Debug)]
pub struct SourceFile {
    pub path: String,
    pub language: Language,
    pub category: Category,
    pub source: Result<String, String>,
}

/// A result with the text of its error alone.
pub open spec fn plain_result(result: Result<FileAnalysis, AnalysisError>) -> Result<
    FileAnalysis,
    String,
> {
    match result {
        Ok(analysis) => Ok(analysis),
        Err(error) => Err(error.message),
    }
}

/// Whether a result fails, if at all, because source does not parse.
pub open spec fn fails_to_parse(result: Result<FileAnalysis, AnalysisError>) -> bool {
    result matches Err(error) ==> error.path is None && error.kind == ErrorKind::Parse
}

/// Whether a result is that of analyzing a file in a category.
#[verifier::opaque]
pub open spec fn analyzes_file(
    result: Result<FileAnalysis, AnalysisError>,
    file: SourceFile,
    category: Category,
) -> bool {
    match file.source {
        Err(message) => result matches Err(error) && rust::fails_with(
            error,
            ErrorKind::Read,
            message@,
        ),
        Ok(source) => match file.language {
            Language::Rust => rust::analyzes_source(result, source@, category),
            Language::Python => fails_to_parse(result) && python::analyzes_source(
                plain_result(result),
                source@,
                category,
            ),
            Language::JavaScript | Language::TypeScript => fails_to_parse(result)
                && javascript::analyzes_at_path(
                plain_result(result),
                file.path@,
                source@,
                category,
            ),
        },
    }
}

fn parse_failure(result: Result<FileAnalysis, String>) -> (outcome: Result<
    FileAnalysis,
    AnalysisError,
>)
    ensures
        plain_result(outcome) == result,
        fails_to_parse(outcome),
{
    match result {
        Ok(analysis) => Ok(analysis),
        Err(message) => Err(AnalysisError { path: None, kind: ErrorKind::Parse, message }),
    }
}

/// Analyzes one file in a category.
pub fn analyze_file(file: &SourceFile, category: Category) -> (result: Result<
    FileAnalysis,
    AnalysisError,
>)
    ensures
        analyzes_file(result, *file, category),
{
    proof {
        reveal(analyzes_file);
    }
    match &file.source {
        Err(message) => Err(
            AnalysisError { path: None, kind: ErrorKind::Read, message: message.clone() },
        ),
        Ok(source) => match file.language {
            Language::Rust => rust::analyze(source.as_str(), category),
            Language::Python => parse_failure(
                python::analyze_file(file.path.as_str(), source.as_str(), category),
            ),
            Language::JavaScript | Language::TypeScript => parse_failure(
                javascript::analyze_file(file.path.as_str(), source.as_str(), category),
            ),
        },
    }
}

/// The category of a file. Rust module reachability can make a source file
/// test code; other files are classified by where they are.
pub open spec fn file_category(file: SourceFile, in_tests: bool) -> Category {
    if file.language == Language::Rust && in_tests {
        Category::Test
    } else {
        file.category
    }
}

/// The files as modules may lead to them.
pub open spec fn known_files(files: Seq<SourceFile>) -> Seq<KnownFile> {
    files.map_values(
        |file: SourceFile|
            KnownFile { path: file.path, is_rust: file.language == Language::Rust },
    )
}

/// Which files are for tests by where they are.
pub open spec fn test_targets(files: Seq<SourceFile>) -> Seq<bool> {
    files.map_values(|file: SourceFile| file.category == Category::Test)
}

/// Whether a file is reached by tests alone.
pub open spec fn in_tests(
    files: Seq<SourceFile>,
    modules: Seq<Vec<PlacedModule>>,
    index: int,
) -> bool {
    test_only(test_targets(files), all_edges(known_files(files), modules), index)
}

/// Finds the files that are reached by tests alone.
fn find_test_files(files: &Vec<SourceFile>, modules: &Vec<Vec<PlacedModule>>) -> (marks: Vec<bool>)
    requires
        modules@.len() == files@.len(),
    ensures
        marks@.len() == files@.len(),
        forall|index: int|
            0 <= index < marks@.len() ==> (#[trigger] marks@[index] <==> in_tests(
                files@,
                modules@,
                index,
            )),
{
    let mut known: Vec<KnownFile> = Vec::new();
    let mut tests: Vec<bool> = Vec::new();
    let mut index: usize = 0;
    while index < files.len()
        invariant
            index <= files@.len(),
            known@ =~= known_files(files@).take(index as int),
            tests@ =~= test_targets(files@).take(index as int),
        decreases files@.len() - index,
    {
        let file = &files[index];
        known.push(
            KnownFile { path: file.path.clone(), is_rust: file.language == Language::Rust },
        );
        tests.push(file.category == Category::Test);
        index += 1;
    }
    assert(known@ =~= known_files(files@));
    assert(tests@ =~= test_targets(files@));
    let edges = resolve_modules(&known, modules);
    discover_test_context_files(&tests, &edges)
}

/// How one callable of a file stands to another.
pub open spec fn function_relation(left: FunctionReport, right: FunctionReport) -> Relation {
    chained(
        chained(
            number_relation(
                left.location.start.line as int,
                right.location.start.line as int,
            ),
            number_relation(
                left.location.start.column as int,
                right.location.start.column as int,
            ),
        ),
        text_relation(left.name@, right.name@),
    )
}

/// The order of the callables of a file: by where they start, then by name.
pub open spec fn function_precedes() -> spec_fn(FunctionReport, FunctionReport) -> bool {
    |left: FunctionReport, right: FunctionReport| function_relation(left, right) != Relation::After
}

fn function_in_order(left: &FunctionReport, right: &FunctionReport) -> (answer: bool)
    ensures
        answer == function_precedes()(*left, *right),
{
    let lines = compare_numbers(left.location.start.line, right.location.start.line);
    if lines != Relation::Same {
        return lines == Relation::Before;
    }
    let columns = compare_numbers(left.location.start.column, right.location.start.column);
    if columns != Relation::Same {
        return columns == Relation::Before;
    }
    compare_text(left.name.as_str(), right.name.as_str()) != Relation::After
}

/// A file that was analyzed, with what its frontend found beside the report.
#[derive(Debug)]
pub struct AnalyzedFile {
    pub file: FileReport,
    pub frontend: FrontendEvidence,
}

/// Whether callables are others with their snapshot ids.
pub open spec fn identified(
    marked: Seq<FunctionReport>,
    functions: Seq<FunctionReport>,
    path: Seq<char>,
    language: Language,
) -> bool {
    &&& marked.len() == functions.len()
    &&& forall|index: int|
        0 <= index < marked.len() ==> same_but_id(#[trigger] marked[index], functions[index])
            && marked[index].snapshot_id@ == function_snapshot(path, language, functions[index])
}

/// Whether a file report is that of an analysis: its callables have snapshot
/// ids and stand in order.
#[verifier::opaque]
pub open spec fn reports_file(
    analyzed: AnalyzedFile,
    file: SourceFile,
    analysis: FileAnalysis,
    root: Seq<char>,
) -> bool {
    let path = shown_path(file.path@, root);
    &&& analyzed.file.path@ == path
    &&& analyzed.file.language == file.language
    &&& analyzed.file.lines == analysis.lines
    &&& analyzed.file.tokens == analysis.tokens
    &&& analyzed.file.macro_opacity == analysis.macro_opacity
    &&& analyzed.frontend == analysis.evidence
    &&& bears(analyzed.file.burden, analyzed.file.functions@)
    &&& exists|marked: Seq<FunctionReport>| #[trigger]
        identified(marked, analysis.functions@, path, file.language)
            && analyzed.file.functions@ == sorted(marked, function_precedes())
}

fn report_file(file: &SourceFile, root: &str, analysis: FileAnalysis) -> (analyzed: AnalyzedFile)
    ensures
        reports_file(analyzed, *file, analysis, root@),
{
    proof {
        reveal(reports_file);
    }
    let path = display_path(file.path.as_str(), root);
    let mut functions = analysis.functions;
    let ghost found = functions@;
    assign_snapshot_ids(path.as_str(), file.language, &mut functions);
    let ghost marked = functions@;
    assert(identified(marked, found, path@, file.language));
    let functions = stable_sort(functions, function_in_order, Ghost(function_precedes()));
    let burden = summarize_burden(&functions);
    AnalyzedFile {
        file: FileReport {
            path,
            language: file.language,
            lines: analysis.lines,
            tokens: analysis.tokens,
            functions,
            burden,
            macro_opacity: analysis.macro_opacity,
        },
        frontend: analysis.evidence,
    }
}

/// Which of the first `count` outcomes are analyses.
pub open spec fn successes(
    outcomes: Seq<Result<FileAnalysis, AnalysisError>>,
    count: nat,
) -> Seq<int>
    decreases count,
{
    if count == 0 {
        Seq::empty()
    } else {
        let earlier = successes(outcomes, (count - 1) as nat);
        if outcomes[count - 1] is Ok {
            earlier.push(count - 1)
        } else {
            earlier
        }
    }
}

/// The plain content of an error.
pub struct ErrorView {
    pub path: Option<Seq<char>>,
    pub kind: ErrorKind,
    pub message: Seq<char>,
}

impl View for AnalysisError {
    type V = ErrorView;

    open spec fn view(&self) -> ErrorView {
        ErrorView {
            path: match self.path {
                Some(path) => Some(path@),
                None => None,
            },
            kind: self.kind,
            message: self.message@,
        }
    }
}

/// The plain contents of errors.
pub open spec fn error_views(errors: Seq<AnalysisError>) -> Seq<ErrorView> {
    errors.map_values(|error: AnalysisError| error@)
}

/// The errors among the first `count` outcomes, with the files they are of.
pub open spec fn failures(
    files: Seq<SourceFile>,
    outcomes: Seq<Result<FileAnalysis, AnalysisError>>,
    root: Seq<char>,
    count: nat,
) -> Seq<ErrorView>
    decreases count,
{
    if count == 0 {
        Seq::empty()
    } else {
        let earlier = failures(files, outcomes, root, (count - 1) as nat);
        match outcomes[count - 1] {
            Ok(_) => earlier,
            Err(error) => earlier.push(
                ErrorView { path: Some(shown_path(files[count - 1].path@, root)), ..error@ },
            ),
        }
    }
}

/// How many of the first `count` files are test files, by where they are or by
/// how they are reached.
pub open spec fn test_file_count(
    files: Seq<SourceFile>,
    modules: Seq<Vec<PlacedModule>>,
    count: nat,
) -> nat
    decreases count,
{
    if count == 0 {
        0
    } else {
        test_file_count(files, modules, (count - 1) as nat) + if files[count - 1].category
            == Category::Test || in_tests(files, modules, count - 1) {
            1nat
        } else {
            0nat
        }
    }
}

/// The order of files in a report.
pub open spec fn file_precedes() -> spec_fn(AnalyzedFile, AnalyzedFile) -> bool {
    |left: AnalyzedFile, right: AnalyzedFile|
        text_relation(left.file.path@, right.file.path@) != Relation::After
}

fn file_in_order(left: &AnalyzedFile, right: &AnalyzedFile) -> (answer: bool)
    ensures
        answer == file_precedes()(*left, *right),
{
    compare_text(left.file.path.as_str(), right.file.path.as_str()) != Relation::After
}

/// What each file was analyzed to.
pub struct Findings {
    pub outcomes: Seq<Result<FileAnalysis, AnalysisError>>,
    pub analyzed: Seq<AnalyzedFile>,
}

/// Whether each file was analyzed to what is found of it.
pub open spec fn finds(
    findings: Findings,
    files: Seq<SourceFile>,
    modules: Seq<Vec<PlacedModule>>,
    root: Seq<char>,
) -> bool {
    let places = successes(findings.outcomes, files.len());
    &&& findings.outcomes.len() == files.len()
    &&& forall|index: int|
        0 <= index < files.len() ==> analyzes_file(
            #[trigger] findings.outcomes[index],
            files[index],
            file_category(files[index], in_tests(files, modules, index)),
        )
    &&& findings.analyzed.len() == places.len()
    &&& forall|index: int|
        0 <= index < places.len() ==> reports_file(
            #[trigger] findings.analyzed[index],
            files[places[index]],
            findings.outcomes[places[index]]->Ok_0,
            root,
        )
}

/// The reports of files.
pub open spec fn file_reports(analyzed: Seq<AnalyzedFile>) -> Seq<FileReport> {
    analyzed.map_values(|item: AnalyzedFile| item.file)
}

/// The files as evidence is built from them.
pub open spec fn evidence_files(analyzed: Seq<AnalyzedFile>) -> Seq<EvidenceFile> {
    analyzed.map_values(
        |item: AnalyzedFile|
            EvidenceFile {
                path: item.file.path,
                language: item.file.language,
                functions: item.file.functions,
                frontend: item.frontend,
            },
    )
}

/// Whether what files come to fits into machine words.
pub open spec fn findings_fit(findings: Findings) -> bool {
    let listed = sorted(findings.analyzed, file_precedes());
    evidence_fits(evidence_files(listed)) && totals_fit(file_reports(listed))
}

/// Where a report comes from.
#[derive(Clone, Copy, Debug, PartialEq, Eq, Structural)]
pub struct Selection {
    pub language_filter: LanguageFilter,
    pub explicit_file: bool,
}

/// Whether a scope is that of a selection.
pub open spec fn scopes(scope: ReportScope, selection: Selection) -> bool {
    &&& scope.selection@ == if selection.explicit_file {
        "file"@
    } else {
        "directory"@
    }
    &&& scope.language_filter@ == selection.language_filter.serialized_text()
    &&& scope.category_policy@ == CATEGORY_POLICY@
}

/// Whether a report is that of what was found.
pub open spec fn reports_on(
    report: Report,
    findings: Findings,
    files: Seq<SourceFile>,
    modules: Seq<Vec<PlacedModule>>,
    root: Seq<char>,
    selection: Selection,
) -> bool {
    let listed = sorted(findings.analyzed, file_precedes());
    &&& report.report_kind@ == "analysis"@
    &&& report.schema_version == SCHEMA_VERSION
    &&& report.tool@ == "kompass"@
    &&& report.version@ == TOOL_VERSION@
    &&& report.evidence_version@ == EVIDENCE_VERSION@
    &&& report.model@ == SCORE_MODEL@
    &&& report.analysis_contract.version@ == ANALYSIS_CONTRACT@
    &&& report.analysis_contract.frontend@ == FRONTEND_CONTRACT@
    &&& report.analysis_contract.discovery@ == DISCOVERY_CONTRACT@
    &&& report.root@ == root
    &&& scopes(report.scope, selection)
    &&& report.files@ == file_reports(listed)
    &&& summarizes(report.summary, report.files@)
    &&& report.macro_opacity == macro_sum(report.files@)
    &&& builds(report.evidence, evidence_files(listed))
    &&& error_views(report.errors@) == failures(files, findings.outcomes, root, files.len())
    &&& report.coverage == (Coverage {
        discovered_files: files.len() as usize,
        analyzed_files: listed.len() as usize,
        failed_files: report.errors@.len() as usize,
        test_files: test_file_count(files, modules, files.len()) as usize,
        complete: report.errors@.len() == 0,
    })
}

proof fn lemma_successes(outcomes: Seq<Result<FileAnalysis, AnalysisError>>, count: nat)
    ensures
        successes(outcomes, count).len() <= count,
        forall|index: int|
            0 <= index < successes(outcomes, count).len() ==> 0 <= #[trigger] successes(
                outcomes,
                count,
            )[index] < count && outcomes[successes(outcomes, count)[index]] is Ok,
    decreases count,
{
    if count > 0 {
        lemma_successes(outcomes, (count - 1) as nat);
    }
}

proof fn lemma_successes_prefix(
    longer: Seq<Result<FileAnalysis, AnalysisError>>,
    shorter: Seq<Result<FileAnalysis, AnalysisError>>,
    count: nat,
)
    requires
        count <= shorter.len() <= longer.len(),
        forall|index: int| 0 <= index < count ==> longer[index] == shorter[index],
    ensures
        successes(longer, count) == successes(shorter, count),
    decreases count,
{
    if count > 0 {
        lemma_successes_prefix(longer, shorter, (count - 1) as nat);
    }
}

proof fn lemma_failures_prefix(
    files: Seq<SourceFile>,
    longer: Seq<Result<FileAnalysis, AnalysisError>>,
    shorter: Seq<Result<FileAnalysis, AnalysisError>>,
    root: Seq<char>,
    count: nat,
)
    requires
        count <= shorter.len() <= longer.len(),
        forall|index: int| 0 <= index < count ==> longer[index] == shorter[index],
    ensures
        failures(files, longer, root, count) == failures(files, shorter, root, count),
    decreases count,
{
    if count > 0 {
        lemma_failures_prefix(files, longer, shorter, root, (count - 1) as nat);
    }
}

/// Whether the first `count` files were analyzed to what is found of them.
spec fn finds_upto(
    findings: Findings,
    files: Seq<SourceFile>,
    modules: Seq<Vec<PlacedModule>>,
    root: Seq<char>,
    count: nat,
) -> bool {
    let places = successes(findings.outcomes, count);
    &&& findings.outcomes.len() == count
    &&& forall|index: int|
        0 <= index < count ==> analyzes_file(
            #[trigger] findings.outcomes[index],
            files[index],
            file_category(files[index], in_tests(files, modules, index)),
        )
    &&& findings.analyzed.len() == places.len()
    &&& forall|index: int|
        0 <= index < places.len() ==> reports_file(
            #[trigger] findings.analyzed[index],
            files[places[index]],
            findings.outcomes[places[index]]->Ok_0,
            root,
        )
}

proof fn lemma_found_success(
    before: Findings,
    after: Findings,
    files: Seq<SourceFile>,
    modules: Seq<Vec<PlacedModule>>,
    root: Seq<char>,
    count: nat,
    outcome: Result<FileAnalysis, AnalysisError>,
)
    requires
        finds_upto(before, files, modules, root, count),
        count < files.len(),
        analyzes_file(
            outcome,
            files[count as int],
            file_category(files[count as int], in_tests(files, modules, count as int)),
        ),
        after.outcomes == before.outcomes.push(outcome),
        match outcome {
            Ok(analysis) => after.analyzed.len() == before.analyzed.len() + 1
                && after.analyzed.drop_last() == before.analyzed && reports_file(
                after.analyzed.last(),
                files[count as int],
                analysis,
                root,
            ),
            Err(_) => after.analyzed == before.analyzed,
        },
    ensures
        finds_upto(after, files, modules, root, count + 1),
{
    lemma_successes(before.outcomes, count);
    lemma_successes_prefix(after.outcomes, before.outcomes, count);
    let places = successes(after.outcomes, count + 1);
    let earlier = successes(before.outcomes, count);
    assert forall|index: int| 0 <= index < places.len() implies reports_file(
        #[trigger] after.analyzed[index],
        files[places[index]],
        after.outcomes[places[index]]->Ok_0,
        root,
    ) by {
        if index < earlier.len() {
            assert(places[index] == earlier[index]);
            assert(after.outcomes[places[index]] == before.outcomes[earlier[index]]);
            if outcome is Ok {
                assert(after.analyzed[index] == after.analyzed.drop_last()[index]);
            }
            assert(after.analyzed[index] == before.analyzed[index]);
        }
    }
}

fn push_failure(errors: &mut Vec<AnalysisError>, error: AnalysisError, path: String)
    ensures
        error_views(final(errors)@) == error_views(old(errors)@).push(
            ErrorView { path: Some(path@), ..error@ },
        ),
{
    let ghost held = error_views(errors@);
    let named = AnalysisError { path: Some(path), kind: error.kind, message: error.message };
    let ghost added = named@;
    errors.push(named);
    assert(error_views(errors@) =~= held.push(added));
}

fn find_all(
    root: &str,
    files: &Vec<SourceFile>,
    marks: &Vec<bool>,
    Ghost(modules): Ghost<Seq<Vec<PlacedModule>>>,
) -> (result: (Vec<AnalyzedFile>, Vec<AnalysisError>, Ghost<Findings>))
    requires
        marks@.len() == files@.len(),
        forall|index: int|
            0 <= index < marks@.len() ==> (#[trigger] marks@[index] <==> in_tests(
                files@,
                modules,
                index,
            )),
    ensures
        finds(result.2@, files@, modules, root@),
        result.0@ == result.2@.analyzed,
        error_views(result.1@) == failures(files@, result.2@.outcomes, root@, files@.len()),
{
    let mut analyzed: Vec<AnalyzedFile> = Vec::new();
    let mut errors: Vec<AnalysisError> = Vec::new();
    let ghost mut outcomes: Seq<Result<FileAnalysis, AnalysisError>> = Seq::empty();
    let mut index: usize = 0;
    assert(error_views(errors@) =~= Seq::<ErrorView>::empty());
    while index < files.len()
        invariant
            index <= files@.len(),
            marks@.len() == files@.len(),
            forall|place: int|
                0 <= place < marks@.len() ==> (#[trigger] marks@[place] <==> in_tests(
                    files@,
                    modules,
                    place,
                )),
            finds_upto(
                Findings { outcomes, analyzed: analyzed@ },
                files@,
                modules,
                root@,
                index as nat,
            ),
            error_views(errors@) == failures(files@, outcomes, root@, index as nat),
        decreases files@.len() - index,
    {
        let file = &files[index];
        let category = if file.language == Language::Rust && marks[index] {
            Category::Test
        } else {
            file.category
        };
        let outcome = analyze_file(file, category);
        let ghost before = Findings { outcomes, analyzed: analyzed@ };
        proof {
            lemma_failures_prefix(files@, outcomes.push(outcome), outcomes, root@, index as nat);
            outcomes = outcomes.push(outcome);
        }
        match outcome {
            Ok(analysis) => {
                analyzed.push(report_file(file, root, analysis));
                assert(analyzed@.drop_last() =~= before.analyzed);
            },
            Err(error) => {
                push_failure(&mut errors, error, display_path(file.path.as_str(), root));
            },
        }
        proof {
            let after = Findings { outcomes, analyzed: analyzed@ };
            lemma_found_success(
                before,
                after,
                files@,
                modules,
                root@,
                index as nat,
                outcomes.last(),
            );
        }
        index += 1;
    }
    let ghost findings = Findings { outcomes, analyzed: analyzed@ };
    assert(finds(findings, files@, modules, root@));
    (analyzed, errors, Ghost(findings))
}

/// What of a file report evidence is not built from.
#[derive(Debug)]
struct FileCounts {
    lines: LineCounts,
    tokens: usize,
    burden: Burden,
    macro_opacity: MacroOpacity,
}

/// The counts of files.
closed spec fn file_counts(analyzed: Seq<AnalyzedFile>) -> Seq<FileCounts> {
    analyzed.map_values(
        |item: AnalyzedFile|
            FileCounts {
                lines: item.file.lines,
                tokens: item.file.tokens,
                burden: item.file.burden,
                macro_opacity: item.file.macro_opacity,
            },
    )
}

fn backwards<T>(items: Vec<T>) -> (result: Vec<T>)
    ensures
        result@ == items@.reverse(),
{
    let ghost whole = items@;
    let mut left = items;
    let mut result: Vec<T> = Vec::new();
    while left.len() > 0
        invariant
            left@.len() + result@.len() == whole.len(),
            left@ =~= whole.take(left@.len() as int),
            result@ =~= whole.reverse().take(result@.len() as int),
        decreases left@.len(),
    {
        let item = left.pop().unwrap();
        result.push(item);
    }
    assert(result@ =~= whole.reverse());
    result
}

fn part_files(listed: Vec<AnalyzedFile>) -> (result: (Vec<EvidenceFile>, Vec<FileCounts>))
    ensures
        result.0@ == evidence_files(listed@),
        result.1@ == file_counts(listed@),
{
    let ghost whole = listed@;
    let mut left = backwards(listed);
    let mut parted: Vec<EvidenceFile> = Vec::new();
    let mut counts: Vec<FileCounts> = Vec::new();
    while left.len() > 0
        invariant
            left@.len() + parted@.len() == whole.len(),
            left@ =~= whole.reverse().take(left@.len() as int),
            parted@ =~= evidence_files(whole).take(parted@.len() as int),
            counts@ =~= file_counts(whole).take(parted@.len() as int),
        decreases left@.len(),
    {
        assert(left@.last() == whole[parted@.len() as int]);
        let AnalyzedFile { file, frontend } = left.pop().unwrap();
        counts.push(
            FileCounts {
                lines: file.lines,
                tokens: file.tokens,
                burden: file.burden,
                macro_opacity: file.macro_opacity,
            },
        );
        parted.push(
            EvidenceFile {
                path: file.path,
                language: file.language,
                functions: file.functions,
                frontend,
            },
        );
    }
    assert(parted@ =~= evidence_files(whole));
    assert(counts@ =~= file_counts(whole));
    (parted, counts)
}

fn rejoin_files(
    parted: Vec<EvidenceFile>,
    counts: Vec<FileCounts>,
    Ghost(listed): Ghost<Seq<AnalyzedFile>>,
) -> (files: Vec<FileReport>)
    requires
        parted@ == evidence_files(listed),
        counts@ == file_counts(listed),
    ensures
        files@ == file_reports(listed),
{
    let mut left = backwards(parted);
    let mut left_counts = backwards(counts);
    let mut files: Vec<FileReport> = Vec::new();
    while left.len() > 0
        invariant
            left@.len() + files@.len() == listed.len(),
            left_counts@.len() == left@.len(),
            left@ =~= evidence_files(listed).reverse().take(left@.len() as int),
            left_counts@ =~= file_counts(listed).reverse().take(left@.len() as int),
            files@ =~= file_reports(listed).take(files@.len() as int),
        decreases left@.len(),
    {
        assert(left@.last() == evidence_files(listed)[files@.len() as int]);
        assert(left_counts@.last() == file_counts(listed)[files@.len() as int]);
        let file = left.pop().unwrap();
        let counted = left_counts.pop().unwrap();
        files.push(
            FileReport {
                path: file.path,
                language: file.language,
                lines: counted.lines,
                tokens: counted.tokens,
                functions: file.functions,
                burden: counted.burden,
                macro_opacity: counted.macro_opacity,
            },
        );
    }
    assert(files@ =~= file_reports(listed));
    files
}

fn count_test_files(
    files: &Vec<SourceFile>,
    marks: &Vec<bool>,
    Ghost(modules): Ghost<Seq<Vec<PlacedModule>>>,
) -> (number: usize)
    requires
        marks@.len() == files@.len(),
        forall|index: int|
            0 <= index < marks@.len() ==> (#[trigger] marks@[index] <==> in_tests(
                files@,
                modules,
                index,
            )),
    ensures
        number == test_file_count(files@, modules, files@.len()),
{
    let mut number: usize = 0;
    let mut index: usize = 0;
    while index < files.len()
        invariant
            index <= files@.len(),
            number <= index,
            marks@.len() == files@.len(),
            forall|place: int|
                0 <= place < marks@.len() ==> (#[trigger] marks@[place] <==> in_tests(
                    files@,
                    modules,
                    place,
                )),
            number == test_file_count(files@, modules, index as nat),
        decreases files@.len() - index,
    {
        if files[index].category == Category::Test || marks[index] {
            number += 1;
        }
        index += 1;
    }
    number
}

fn make_scope(selection: Selection) -> (scope: ReportScope)
    ensures
        scopes(scope, selection),
{
    ReportScope {
        selection: if selection.explicit_file {
            "file".to_owned()
        } else {
            "directory".to_owned()
        },
        language_filter: selection.language_filter.serialized().to_owned(),
        category_policy: CATEGORY_POLICY.to_owned(),
    }
}

/// Analyze each discovered source file independently, and report on all of
/// them. `modules` holds what each file declares of modules in other files.
/// There is no report where what the files come to does not fit into machine
/// words.
pub fn analyze(
    root: &str,
    files: &Vec<SourceFile>,
    modules: &Vec<Vec<PlacedModule>>,
    selection: Selection,
) -> (result: Option<Report>)
    requires
        modules@.len() == files@.len(),
    ensures
        exists|findings: Findings| #[trigger]
            finds(findings, files@, modules@, root@) && match result {
                Some(report) => findings_fit(findings) && reports_on(
                    report,
                    findings,
                    files@,
                    modules@,
                    root@,
                    selection,
                ),
                None => !findings_fit(findings),
            },
{
    let marks = find_test_files(files, modules);
    let (analyzed, errors, Ghost(findings)) = find_all(root, files, &marks, Ghost(modules@));
    let listed = stable_sort(analyzed, file_in_order, Ghost(file_precedes()));
    let ghost kept = listed@;
    assert(kept == sorted(findings.analyzed, file_precedes()));
    let (parted, counts) = part_files(listed);
    if !does_evidence_fit(parted.as_slice()) {
        assert(!findings_fit(findings));
        return None;
    }
    let evidence = build(parted.as_slice());
    let reports = rejoin_files(parted, counts, Ghost(kept));
    if !do_totals_fit(&reports) {
        assert(!findings_fit(findings));
        return None;
    }
    let summary = summarize(&reports);
    let macro_opacity = summarize_macro_opacity(&reports);
    let coverage = Coverage {
        discovered_files: files.len(),
        analyzed_files: reports.len(),
        failed_files: errors.len(),
        test_files: count_test_files(files, &marks, Ghost(modules@)),
        complete: errors.len() == 0,
    };
    let report = Report {
        report_kind: "analysis".to_owned(),
        schema_version: SCHEMA_VERSION,
        tool: "kompass".to_owned(),
        version: TOOL_VERSION.to_owned(),
        evidence_version: EVIDENCE_VERSION.to_owned(),
        model: SCORE_MODEL.to_owned(),
        analysis_contract: AnalysisContract::current(),
        root: root.to_owned(),
        scope: make_scope(selection),
        summary,
        coverage,
        macro_opacity,
        evidence,
        files: reports,
        errors,
    };
    assert(reports_on(report, findings, files@, modules@, root@, selection));
    Some(report)
}

proof fn lemma_outcomes_add_up(
    files: Seq<SourceFile>,
    outcomes: Seq<Result<FileAnalysis, AnalysisError>>,
    root: Seq<char>,
    count: nat,
)
    ensures
        successes(outcomes, count).len() + failures(files, outcomes, root, count).len() == count,
    decreases count,
{
    if count > 0 {
        lemma_outcomes_add_up(files, outcomes, root, (count - 1) as nat);
    }
}

/// Every discovered file is either analyzed or recorded as an error, and
/// coverage is complete just where there is no error.
pub proof fn every_file_is_reported_or_an_error(
    report: Report,
    findings: Findings,
    files: Seq<SourceFile>,
    modules: Seq<Vec<PlacedModule>>,
    root: Seq<char>,
    selection: Selection,
)
    requires
        files.len() <= usize::MAX,
        finds(findings, files, modules, root),
        reports_on(report, findings, files, modules, root, selection),
    ensures
        report.coverage.discovered_files == report.files@.len() + report.errors@.len(),
        report.coverage.analyzed_files == report.files@.len(),
        report.coverage.failed_files == report.errors@.len(),
        report.coverage.complete <==> report.files@.len() == files.len(),
{
    lemma_outcomes_add_up(files, findings.outcomes, root, files.len());
    sorted_length(findings.analyzed, file_precedes());
    assert(error_views(report.errors@).len() == report.errors@.len());
}

}
