//! Safe before/after comparison for machine-readable Kompass reports.
use vstd::prelude::*;
use vstd::string::StringExecFns;
use crate::deltas::{
    change_of, change_precedes, change_views, compare_functions, component_deltas,
    component_differences, component_totals, component_views, function_change, lists_changes,
    metric, metric_delta, sort_function_changes, total_components, ChangeStatus, ComponentDelta,
    ComponentDeltaView, FunctionChange, FunctionChangeView, FunctionChanges, MetricDelta,
};
use crate::entries::{
    entries, entry_views, function_map, repeat_issue, repeated_entry, EntryView, FunctionEntry,
};
use crate::identity::EVIDENCE_VERSION;
use crate::matching::{
    ambiguous_upto, count_ambiguous, list_open_after, match_entries, open_after, partners,
    partners_valid,
};
use crate::model::{AnalysisContract, Language, SCHEMA_VERSION};
use crate::order::{referents, sorted};
use crate::report_input::{
    file_map, file_pairs, files_by_path, pair_files, pair_views, pairs_held, FilePair, FilePairView,
    InputBurden, InputFile, InputReport,
};
use crate::stats::{highest_score, highest_upto, p95_score, percentile};
use crate::sums::clipped;
use crate::text::{
    blank, decimal, is_blank, join, joined, push_decimal, push_quoted, quoted, same_text, texts,
};

verus! {

/// Options controlling report comparison.
#[derive(Clone, Copy, Debug, Default, PartialEq, Eq, Structural)]
pub struct CompareOptions {
    /// Permit the before and after reports to contain different files.
    /// Aggregate deltas then include the burden of added and removed files.
    pub allow_file_changes: bool,
    /// Permit different absolute report roots, as of equivalent checkouts.
    pub allow_root_change: bool,
}

/// A report comparison that passed all like-for-like validation checks.
#[derive(Debug)]
pub struct Comparison {
    pub comparable: bool,
    pub before: ReportMetadata,
    pub after: ReportMetadata,
    pub scope: ScopeSummary,
    pub file_changes: FileChanges,
    pub file_burdens: Vec<FileBurdenDelta>,
    pub burden: BurdenDelta,
    pub callables: CallableStatsDelta,
    pub macro_opacity: MacroOpacityDelta,
    /// All score components, ordered by descending absolute delta. Text output
    /// shows the first five; JSON keeps the complete fixed component set.
    pub components: Vec<ComponentDelta>,
    /// Burden and score components, partitioned by language.
    pub language_deltas: Vec<LanguageDelta>,
    pub functions: FunctionChanges,
    pub possible_redistributions: Vec<RedistributionHint>,
    pub warnings: Vec<String>,
}

#[derive(Debug)]
pub struct ReportMetadata {
    pub path: String,
    pub root: String,
    pub version: String,
    pub model: String,
    pub analysis_contract: AnalysisContract,
    pub evidence_version: String,
}

#[derive(Debug)]
pub struct ScopeSummary {
    pub root: String,
    pub files: usize,
    pub before_files: usize,
    pub after_files: usize,
    pub file_set_changed: bool,
    pub before_test_files: usize,
    pub after_test_files: usize,
    pub coverage_complete: bool,
}

#[derive(Debug)]
pub struct FileChanges {
    pub added: Vec<String>,
    pub removed: Vec<String>,
}

#[derive(Debug)]
pub struct FileBurdenDelta {
    pub path: String,
    pub production: MetricDelta,
    pub test: MetricDelta,
    pub total: MetricDelta,
}

#[derive(Clone, Copy, Debug, PartialEq, Eq, Structural)]
pub struct BurdenDelta {
    pub production: MetricDelta,
    pub test: MetricDelta,
    pub total: MetricDelta,
}

#[derive(Clone, Copy, Debug, PartialEq, Eq, Structural)]
pub struct CallableStatsDelta {
    pub production: CallableStats,
    pub test: CallableStats,
}

#[derive(Clone, Copy, Debug, PartialEq, Eq, Structural)]
pub struct CallableStats {
    pub count: MetricDelta,
    pub p95_score: MetricDelta,
    pub highest_score: MetricDelta,
}

#[derive(Clone, Copy, Debug, PartialEq, Eq, Structural)]
pub struct MacroOpacityDelta {
    pub invocations: MetricDelta,
    pub source_tokens: MetricDelta,
    pub definitions: MetricDelta,
    pub definition_tokens: MetricDelta,
}

#[derive(Debug)]
pub struct LanguageDelta {
    pub language: Language,
    pub burden: BurdenDelta,
    pub components: Vec<ComponentDelta>,
}

#[derive(Debug)]
pub struct RedistributionHint {
    pub path: String,
    pub category: String,
    pub matched_reductions: Vec<FunctionChange>,
    pub added_count: usize,
    pub added_burden: usize,
    pub file_total: MetricDelta,
    pub note: String,
}

#[derive(Debug)]
pub enum DiffError {
    Read { path: String, message: String },
    Parse { path: String, message: String },
    Incompatible { issues: Vec<String> },
}

impl DiffError {
    /// The lines of the first `count` issues.
    pub open spec fn issue_lines(issues: Seq<String>, count: nat) -> Seq<char>
        decreases count,
    {
        if count == 0 {
            Seq::empty()
        } else {
            Self::issue_lines(issues, (count - 1) as nat) + "  - "@ + issues[count - 1]@ + "\n"@
        }
    }

    /// What the error says.
    pub open spec fn text(self) -> Seq<char> {
        match self {
            DiffError::Read { path, message } => "could not read report "@ + path@ + ": "@
                + message@,
            DiffError::Parse { path, message } => "could not parse report "@ + path@ + ": "@
                + message@,
            DiffError::Incompatible { issues } => "cannot compare reports safely:\n"@
                + Self::issue_lines(issues@, issues@.len()),
        }
    }

    pub fn message(&self) -> (text: String)
        ensures
            text@ == self.text(),
    {
        match self {
            DiffError::Read { path, message } => {
                let mut text = "could not read report ".to_owned();
                text.append(path.as_str());
                text.append(": ");
                text.append(message.as_str());
                text
            },
            DiffError::Parse { path, message } => {
                let mut text = "could not parse report ".to_owned();
                text.append(path.as_str());
                text.append(": ");
                text.append(message.as_str());
                text
            },
            DiffError::Incompatible { issues } => {
                let mut lines = String::new();
                let mut index: usize = 0;
                while index < issues.len()
                    invariant
                        index <= issues@.len(),
                        lines@ == Self::issue_lines(issues@, index as nat),
                    decreases issues@.len() - index,
                {
                    lines.append("  - ");
                    lines.append(issues[index].as_str());
                    lines.append("\n");
                    index += 1;
                }
                let mut text = "cannot compare reports safely:\n".to_owned();
                text.append(lines.as_str());
                text
            },
        }
    }
}

/// What is wrong with the identity of a report.
pub open spec fn identity_issues(label: Seq<char>, report: InputReport) -> Seq<Seq<char>> {
    (if report.tool@ != "kompass"@ {
        seq![label + " report has tool "@ + quoted(report.tool@) + "; expected \"kompass\""@]
    } else {
        seq![]
    }) + (if report.schema_version != SCHEMA_VERSION {
        seq![
            label + " report has schema version "@ + decimal(report.schema_version as nat)
                + "; expected "@ + decimal(SCHEMA_VERSION as nat),
        ]
    } else {
        seq![]
    }) + (if report.evidence_version@ != EVIDENCE_VERSION@ {
        seq![
            label + " report has evidence version "@ + quoted(report.evidence_version@)
                + "; expected "@ + quoted(EVIDENCE_VERSION@),
        ]
    } else {
        seq![]
    }) + (if blank(report.model@) {
        seq![label + " report has an empty score model"@]
    } else {
        seq![]
    }) + (if blank(report.root@) {
        seq![label + " report has an empty analyzed root"@]
    } else {
        seq![]
    })
}

/// Whether two analysis contracts agree.
pub open spec fn same_contract(left: AnalysisContract, right: AnalysisContract) -> bool {
    &&& left.version@ == right.version@
    &&& left.frontend@ == right.frontend@
    &&& left.discovery@ == right.discovery@
}

/// How two roots differ.
pub open spec fn root_difference(before: Seq<char>, after: Seq<char>) -> Seq<char> {
    "analyzed roots differ: before is "@ + quoted(before) + ", after is "@ + quoted(after)
}

/// What keeps two reports from being measured in one way.
pub open spec fn agreement_issues(
    before: InputReport,
    after: InputReport,
    options: CompareOptions,
) -> Seq<Seq<char>> {
    (if before.model@ != after.model@ {
        seq![
            "score model differs: before is "@ + quoted(before.model@) + ", after is "@ + quoted(
                after.model@,
            ) + "; compare reports generated with the same model"@,
        ]
    } else {
        seq![]
    }) + (if !same_contract(before.analysis_contract, after.analysis_contract) {
        seq![
            "analysis contract differs: before is "@ + before.analysis_contract.display_text()
                + ", after is "@ + after.analysis_contract.display_text()
                + "; compare reports generated with the same contract"@,
        ]
    } else {
        seq![]
    }) + (if before.root@ != after.root@ && !options.allow_root_change {
        seq![
            root_difference(before.root@, after.root@)
                + "; use the same input root or pass --allow-root-change"@,
        ]
    } else {
        seq![]
    })
}

/// What is wrong with the coverage of a report.
pub open spec fn coverage_issues(label: Seq<char>, report: InputReport) -> Seq<Seq<char>> {
    let coverage = report.coverage;
    (if !coverage.complete {
        seq![
            label + " coverage is incomplete ("@ + decimal(coverage.analyzed_files as nat) + " of "@
                + decimal(coverage.discovered_files as nat) + " files analyzed)"@,
        ]
    } else {
        seq![]
    }) + (if coverage.failed_files > 0 {
        seq![
            label + " report contains "@ + decimal(coverage.failed_files as nat)
                + " failed file(s)"@,
        ]
    } else {
        seq![]
    }) + (if report.errors@.len() > 0 {
        seq![
            label + " report contains "@ + decimal(report.errors@.len()) + " analysis error(s)"@,
        ]
    } else {
        seq![]
    }) + (if coverage.discovered_files != coverage.analyzed_files {
        seq![
            label + " coverage counts differ ("@ + decimal(coverage.discovered_files as nat)
                + " discovered, "@ + decimal(coverage.analyzed_files as nat) + " analyzed)"@,
        ]
    } else {
        seq![]
    }) + (if coverage.analyzed_files != report.files@.len() {
        seq![
            label + " report is internally inconsistent ("@ + decimal(
                coverage.analyzed_files as nat,
            ) + " analyzed files, "@ + decimal(report.files@.len()) + " file records)"@,
        ]
    } else {
        seq![]
    })
}

/// Whether the path of the `index`-th file stands before it already.
pub open spec fn path_repeats(files: Seq<InputFile>, index: int) -> bool {
    exists|earlier: int|
        0 <= earlier < index && (#[trigger] files[earlier]).path@ == files[index].path@
}

/// What is wrong with the paths of the first `count` files.
pub open spec fn repeated_path_issues(
    label: Seq<char>,
    files: Seq<InputFile>,
    count: nat,
) -> Seq<Seq<char>>
    decreases count,
{
    if count == 0 {
        seq![]
    } else {
        let earlier = repeated_path_issues(label, files, (count - 1) as nat);
        if path_repeats(files, count - 1) {
            earlier.push(
                label + " report lists file "@ + quoted(files[count - 1].path@)
                    + " more than once"@,
            )
        } else {
            earlier
        }
    }
}

/// The paths among the first `count` pairs that only the report after has.
pub open spec fn added_paths(pairs: Seq<FilePairView>, count: nat) -> Seq<Seq<char>>
    decreases count,
{
    if count == 0 {
        seq![]
    } else {
        let earlier = added_paths(pairs, (count - 1) as nat);
        if pairs[count - 1].before is None {
            earlier.push(pairs[count - 1].path())
        } else {
            earlier
        }
    }
}

/// The paths among the first `count` pairs that only the report before has.
pub open spec fn removed_paths(pairs: Seq<FilePairView>, count: nat) -> Seq<Seq<char>>
    decreases count,
{
    if count == 0 {
        seq![]
    } else {
        let earlier = removed_paths(pairs, (count - 1) as nat);
        if pairs[count - 1].after is None {
            earlier.push(pairs[count - 1].path())
        } else {
            earlier
        }
    }
}

/// Paths in one line.
pub open spec fn path_line(paths: Seq<Seq<char>>) -> Seq<char> {
    if paths.len() == 0 {
        "none"@
    } else {
        joined(paths, ", "@)
    }
}

/// Whether the two reports are of different files.
pub open spec fn file_set_differs(pairs: Seq<FilePairView>) -> bool {
    added_paths(pairs, pairs.len()).len() > 0 || removed_paths(pairs, pairs.len()).len() > 0
}

/// What is wrong with the files of two reports taken together.
pub open spec fn scope_issues(pairs: Seq<FilePairView>, options: CompareOptions) -> Seq<Seq<char>> {
    if file_set_differs(pairs) && !options.allow_file_changes {
        seq![
            "file scope differs (added: "@ + path_line(added_paths(pairs, pairs.len()))
                + "; removed: "@ + path_line(removed_paths(pairs, pairs.len()))
                + "); run both reports over the same source file set or pass --allow-file-changes"@,
        ]
    } else {
        seq![]
    }
}

/// All that keeps two reports from being compared safely.
pub open spec fn comparison_issues(
    before: InputReport,
    after: InputReport,
    options: CompareOptions,
) -> Seq<Seq<char>> {
    identity_issues("before"@, before) + identity_issues("after"@, after) + agreement_issues(
        before,
        after,
        options,
    ) + coverage_issues("before"@, before) + coverage_issues("after"@, after)
        + repeated_path_issues("before"@, before.files@, before.files@.len())
        + repeated_path_issues("after"@, after.files@, after.files@.len()) + scope_issues(
        file_pairs(before, after),
        options,
    )
}

/// What comparing two reports is refused for, if it is.
pub open spec fn refusal(
    before: InputReport,
    after: InputReport,
    options: CompareOptions,
) -> Seq<Seq<char>> {
    let issues = comparison_issues(before, after, options);
    if issues.len() > 0 {
        issues
    } else {
        match (repeated_entry(before.files@), repeated_entry(after.files@)) {
            (Some(entry), _) => seq![repeat_issue("before"@, entry)],
            (None, Some(entry)) => seq![repeat_issue("after"@, entry)],
            (None, None) => seq![],
        }
    }
}

fn push_issue(issues: &mut Vec<String>, issue: String)
    ensures
        texts(final(issues)@) == texts(old(issues)@) + seq![issue@],
{
    let ghost held = texts(issues@);
    issues.push(issue);
    assert(texts(issues@) =~= held + seq![issue@]);
}

fn validate_identity(label: &str, report: &InputReport, issues: &mut Vec<String>)
    ensures
        texts(final(issues)@) == texts(old(issues)@) + identity_issues(label@, *report),
{
    let ghost held = texts(issues@);
    if !same_text(report.tool.as_str(), "kompass") {
        let mut issue = label.to_owned();
        issue.append(" report has tool ");
        push_quoted(&mut issue, report.tool.as_str());
        issue.append("; expected \"kompass\"");
        push_issue(issues, issue);
    }
    if report.schema_version != SCHEMA_VERSION {
        let mut issue = label.to_owned();
        issue.append(" report has schema version ");
        push_decimal(&mut issue, report.schema_version as usize);
        issue.append("; expected ");
        push_decimal(&mut issue, SCHEMA_VERSION as usize);
        push_issue(issues, issue);
    }
    if !same_text(report.evidence_version.as_str(), EVIDENCE_VERSION) {
        let mut issue = label.to_owned();
        issue.append(" report has evidence version ");
        push_quoted(&mut issue, report.evidence_version.as_str());
        issue.append("; expected ");
        push_quoted(&mut issue, EVIDENCE_VERSION);
        push_issue(issues, issue);
    }
    if is_blank(report.model.as_str()) {
        let mut issue = label.to_owned();
        issue.append(" report has an empty score model");
        push_issue(issues, issue);
    }
    if is_blank(report.root.as_str()) {
        let mut issue = label.to_owned();
        issue.append(" report has an empty analyzed root");
        push_issue(issues, issue);
    }
    assert(texts(issues@) =~= held + identity_issues(label@, *report));
}

fn describe_roots(before: &InputReport, after: &InputReport) -> (text: String)
    ensures
        text@ == root_difference(before.root@, after.root@),
{
    let mut text = "analyzed roots differ: before is ".to_owned();
    push_quoted(&mut text, before.root.as_str());
    text.append(", after is ");
    push_quoted(&mut text, after.root.as_str());
    text
}

fn validate_agreement(
    before: &InputReport,
    after: &InputReport,
    options: CompareOptions,
    issues: &mut Vec<String>,
)
    ensures
        texts(final(issues)@) == texts(old(issues)@) + agreement_issues(*before, *after, options),
{
    let ghost held = texts(issues@);
    if before.model != after.model {
        let mut issue = "score model differs: before is ".to_owned();
        push_quoted(&mut issue, before.model.as_str());
        issue.append(", after is ");
        push_quoted(&mut issue, after.model.as_str());
        issue.append("; compare reports generated with the same model");
        push_issue(issues, issue);
    }
    if before.analysis_contract.version != after.analysis_contract.version
        || before.analysis_contract.frontend != after.analysis_contract.frontend
        || before.analysis_contract.discovery != after.analysis_contract.discovery {
        let mut issue = "analysis contract differs: before is ".to_owned();
        issue.append(before.analysis_contract.display().as_str());
        issue.append(", after is ");
        issue.append(after.analysis_contract.display().as_str());
        issue.append("; compare reports generated with the same contract");
        push_issue(issues, issue);
    }
    if before.root != after.root && !options.allow_root_change {
        let mut issue = describe_roots(before, after);
        issue.append("; use the same input root or pass --allow-root-change");
        push_issue(issues, issue);
    }
    assert(texts(issues@) =~= held + agreement_issues(*before, *after, options));
}

fn validate_coverage(label: &str, report: &InputReport, issues: &mut Vec<String>)
    ensures
        texts(final(issues)@) == texts(old(issues)@) + coverage_issues(label@, *report),
{
    let ghost held = texts(issues@);
    let coverage = &report.coverage;
    if !coverage.complete {
        let mut issue = label.to_owned();
        issue.append(" coverage is incomplete (");
        push_decimal(&mut issue, coverage.analyzed_files);
        issue.append(" of ");
        push_decimal(&mut issue, coverage.discovered_files);
        issue.append(" files analyzed)");
        push_issue(issues, issue);
    }
    if coverage.failed_files > 0 {
        let mut issue = label.to_owned();
        issue.append(" report contains ");
        push_decimal(&mut issue, coverage.failed_files);
        issue.append(" failed file(s)");
        push_issue(issues, issue);
    }
    if report.errors.len() > 0 {
        let mut issue = label.to_owned();
        issue.append(" report contains ");
        push_decimal(&mut issue, report.errors.len());
        issue.append(" analysis error(s)");
        push_issue(issues, issue);
    }
    if coverage.discovered_files != coverage.analyzed_files {
        let mut issue = label.to_owned();
        issue.append(" coverage counts differ (");
        push_decimal(&mut issue, coverage.discovered_files);
        issue.append(" discovered, ");
        push_decimal(&mut issue, coverage.analyzed_files);
        issue.append(" analyzed)");
        push_issue(issues, issue);
    }
    if coverage.analyzed_files != report.files.len() {
        let mut issue = label.to_owned();
        issue.append(" report is internally inconsistent (");
        push_decimal(&mut issue, coverage.analyzed_files);
        issue.append(" analyzed files, ");
        push_decimal(&mut issue, report.files.len());
        issue.append(" file records)");
        push_issue(issues, issue);
    }
    assert(texts(issues@) =~= held + coverage_issues(label@, *report));
}

fn validate_paths(label: &str, report: &InputReport, issues: &mut Vec<String>)
    ensures
        texts(final(issues)@) == texts(old(issues)@) + repeated_path_issues(
            label@,
            report.files@,
            report.files@.len(),
        ),
{
    let ghost held = texts(issues@);
    let files = &report.files;
    let mut index: usize = 0;
    assert(texts(issues@) =~= held + repeated_path_issues(label@, files@, 0));
    while index < files.len()
        invariant
            index <= files@.len(),
            texts(issues@) == held + repeated_path_issues(label@, files@, index as nat),
        decreases files@.len() - index,
    {
        let mut repeated: bool = false;
        let mut earlier: usize = 0;
        while earlier < index && !repeated
            invariant
                earlier <= index < files@.len(),
                repeated ==> path_repeats(files@, index as int),
                !repeated ==> forall|place: int|
                    0 <= place < earlier ==> (#[trigger] files@[place]).path@
                        != files@[index as int].path@,
            decreases index - earlier,
        {
            repeated = files[earlier].path == files[index].path;
            earlier += 1;
        }
        if repeated {
            let mut issue = label.to_owned();
            issue.append(" report lists file ");
            push_quoted(&mut issue, files[index].path.as_str());
            issue.append(" more than once");
            let ghost text = issue@;
            push_issue(issues, issue);
            assert(texts(issues@) =~= held + repeated_path_issues(
                label@,
                files@,
                index as nat,
            ).push(text));
        }
        index += 1;
    }
}

fn list_file_changes(pairs: &Vec<FilePair>) -> (changes: FileChanges)
    requires
        pairs_held(pair_views(pairs@)),
    ensures
        texts(changes.added@) == added_paths(pair_views(pairs@), pairs@.len()),
        texts(changes.removed@) == removed_paths(pair_views(pairs@), pairs@.len()),
{
    let ghost views = pair_views(pairs@);
    let mut added: Vec<String> = Vec::new();
    let mut removed: Vec<String> = Vec::new();
    let mut index: usize = 0;
    assert(texts(added@) =~= seq![]);
    assert(texts(removed@) =~= seq![]);
    while index < pairs.len()
        invariant
            index <= pairs@.len(),
            views == pair_views(pairs@),
            pairs_held(views),
            texts(added@) == added_paths(views, index as nat),
            texts(removed@) == removed_paths(views, index as nat),
        decreases pairs@.len() - index,
    {
        let pair = &pairs[index];
        assert(views[index as int] == pair@);
        let ghost held_added = texts(added@);
        let ghost held_removed = texts(removed@);
        match (pair.before, pair.after) {
            (None, Some(file)) => {
                added.push(file.path.clone());
                assert(texts(added@) =~= held_added.push(file.path@));
            },
            (Some(file), None) => {
                removed.push(file.path.clone());
                assert(texts(removed@) =~= held_removed.push(file.path@));
            },
            _ => {},
        }
        index += 1;
    }
    FileChanges { added, removed }
}

fn format_paths(paths: &Vec<String>) -> (text: String)
    ensures
        text@ == path_line(texts(paths@)),
{
    if paths.is_empty() {
        "none".to_owned()
    } else {
        join(paths, ", ")
    }
}

fn validate_scope(changes: &FileChanges, options: CompareOptions, issues: &mut Vec<String>, Ghost(
    pairs,
): Ghost<Seq<FilePairView>>)
    requires
        texts(changes.added@) == added_paths(pairs, pairs.len()),
        texts(changes.removed@) == removed_paths(pairs, pairs.len()),
    ensures
        texts(final(issues)@) == texts(old(issues)@) + scope_issues(pairs, options),
{
    let ghost held = texts(issues@);
    assert(texts(changes.added@).len() == changes.added@.len());
    assert(texts(changes.removed@).len() == changes.removed@.len());
    if (!changes.added.is_empty() || !changes.removed.is_empty()) && !options.allow_file_changes {
        let mut issue = "file scope differs (added: ".to_owned();
        issue.append(format_paths(&changes.added).as_str());
        issue.append("; removed: ");
        issue.append(format_paths(&changes.removed).as_str());
        issue.append(
            "); run both reports over the same source file set or pass --allow-file-changes",
        );
        push_issue(issues, issue);
    }
    assert(texts(issues@) =~= held + scope_issues(pairs, options));
}

/// The scores of the callables of a category among the first `count` entries.
pub open spec fn category_scores(
    entries: Seq<EntryView>,
    category: Seq<char>,
    count: nat,
) -> Seq<usize>
    decreases count,
{
    if count == 0 {
        Seq::empty()
    } else {
        let earlier = category_scores(entries, category, (count - 1) as nat);
        if entries[count - 1].category == category {
            earlier.push(entries[count - 1].function.score.value)
        } else {
            earlier
        }
    }
}

/// Count, percentile and highest score of a category, before and after.
pub open spec fn category_stats(
    before: Seq<EntryView>,
    after: Seq<EntryView>,
    category: Seq<char>,
) -> CallableStats {
    let old_scores = category_scores(before, category, before.len());
    let new_scores = category_scores(after, category, after.len());
    CallableStats {
        count: metric(old_scores.len() as usize, new_scores.len() as usize),
        p95_score: metric(percentile(old_scores), percentile(new_scores)),
        highest_score: metric(
            highest_upto(old_scores, old_scores.len()),
            highest_upto(new_scores, new_scores.len()),
        ),
    }
}

fn scores_for_category(entries: &Vec<FunctionEntry>, category: &str) -> (scores: Vec<usize>)
    ensures
        scores@ == category_scores(entry_views(entries@), category@, entries@.len()),
{
    let ghost views = entry_views(entries@);
    let mut scores: Vec<usize> = Vec::new();
    let mut index: usize = 0;
    while index < entries.len()
        invariant
            index <= entries@.len(),
            views == entry_views(entries@),
            scores@ == category_scores(views, category@, index as nat),
        decreases entries@.len() - index,
    {
        assert(views[index as int] == entries@[index as int]@);
        let function = entries[index].function;
        if same_text(function.category.as_str(), category) {
            scores.push(function.score.value);
        }
        index += 1;
    }
    scores
}

fn callable_stats(
    before: &Vec<FunctionEntry>,
    after: &Vec<FunctionEntry>,
    category: &str,
) -> (stats: CallableStats)
    ensures
        stats == category_stats(entry_views(before@), entry_views(after@), category@),
{
    let old_scores = scores_for_category(before, category);
    let new_scores = scores_for_category(after, category);
    assert(entry_views(before@).len() == before@.len());
    assert(entry_views(after@).len() == after@.len());
    CallableStats {
        count: metric_delta(old_scores.len(), new_scores.len()),
        p95_score: metric_delta(p95_score(&old_scores), p95_score(&new_scores)),
        highest_score: metric_delta(highest_score(&old_scores), highest_score(&new_scores)),
    }
}

/// The burden of a file, or none.
pub open spec fn burden_or_none(file: Option<InputFile>) -> InputBurden {
    match file {
        Some(held) => held.burden,
        None => InputBurden { production: 0, test: 0, total: 0 },
    }
}

/// A burden before and after.
pub open spec fn burden_delta(before: InputBurden, after: InputBurden) -> BurdenDelta {
    BurdenDelta {
        production: metric(before.production, after.production),
        test: metric(before.test, after.test),
        total: metric(before.total, after.total),
    }
}

/// Whether a metric is the same before and after.
pub open spec fn metric_unchanged(delta: MetricDelta) -> bool {
    delta.before == delta.after && delta.delta == 0
}

fn compare_burdens(before: &InputBurden, after: &InputBurden) -> (delta: BurdenDelta)
    ensures
        delta == burden_delta(*before, *after),
{
    BurdenDelta {
        production: metric_delta(before.production, after.production),
        test: metric_delta(before.test, after.test),
        total: metric_delta(before.total, after.total),
    }
}

/// The plain content of a file's burden before and after.
pub struct FileBurdenView {
    pub path: Seq<char>,
    pub burden: BurdenDelta,
}

impl View for FileBurdenDelta {
    type V = FileBurdenView;

    open spec fn view(&self) -> FileBurdenView {
        FileBurdenView {
            path: self.path@,
            burden: BurdenDelta {
                production: self.production,
                test: self.test,
                total: self.total,
            },
        }
    }
}

/// The plain contents of files' burdens.
pub open spec fn file_burden_views(burdens: Seq<FileBurdenDelta>) -> Seq<FileBurdenView> {
    burdens.map_values(|burden: FileBurdenDelta| burden@)
}

/// The burden of every file of two reports, before and after.
pub open spec fn file_burdens(pairs: Seq<FilePairView>) -> Seq<FileBurdenView> {
    pairs.map_values(
        |pair: FilePairView|
            FileBurdenView {
                path: pair.path(),
                burden: burden_delta(burden_or_none(pair.before), burden_or_none(pair.after)),
            },
    )
}

fn file_burden_deltas(pairs: &Vec<FilePair>) -> (burdens: Vec<FileBurdenDelta>)
    requires
        pairs_held(pair_views(pairs@)),
    ensures
        file_burden_views(burdens@) == file_burdens(pair_views(pairs@)),
{
    let ghost views = pair_views(pairs@);
    let mut burdens: Vec<FileBurdenDelta> = Vec::new();
    let mut index: usize = 0;
    while index < pairs.len()
        invariant
            index <= pairs@.len(),
            views == pair_views(pairs@),
            pairs_held(views),
            file_burden_views(burdens@) =~= file_burdens(views).take(index as int),
        decreases pairs@.len() - index,
    {
        let ghost held = file_burden_views(burdens@);
        let pair = &pairs[index];
        assert(views[index as int] == pair@);
        let none = InputBurden { production: 0, test: 0, total: 0 };
        let before = match pair.before {
            Some(file) => file.burden,
            None => none,
        };
        let after = match pair.after {
            Some(file) => file.burden,
            None => none,
        };
        let path = match pair.before {
            Some(file) => file.path.clone(),
            None => pair.after.unwrap().path.clone(),
        };
        let delta = compare_burdens(&before, &after);
        let burden = FileBurdenDelta {
            path,
            production: delta.production,
            test: delta.test,
            total: delta.total,
        };
        let ghost added = burden@;
        burdens.push(burden);
        assert(file_burden_views(burdens@) =~= held.push(added));
        index += 1;
    }
    assert(file_burden_views(burdens@) =~= file_burdens(views));
    burdens
}

/// A burden of a language in the first `count` files, added up.
pub open spec fn language_burden_total(
    files: Seq<InputFile>,
    language: Language,
    part: spec_fn(InputBurden) -> usize,
    count: nat,
) -> nat
    decreases count,
{
    if count == 0 {
        0
    } else {
        language_burden_total(files, language, part, (count - 1) as nat) + if files[count
            - 1].language == language {
            part(files[count - 1].burden) as nat
        } else {
            0
        }
    }
}

/// The burden of a language, each part within the range of its type.
pub open spec fn language_burden(files: Seq<InputFile>, language: Language) -> InputBurden {
    InputBurden {
        production: clipped(
            language_burden_total(
                files,
                language,
                |burden: InputBurden| burden.production,
                files.len(),
            ),
        ),
        test: clipped(
            language_burden_total(
                files,
                language,
                |burden: InputBurden| burden.test,
                files.len(),
            ),
        ),
        total: clipped(
            language_burden_total(
                files,
                language,
                |burden: InputBurden| burden.total,
                files.len(),
            ),
        ),
    }
}

/// Whether a file is of a language.
pub open spec fn has_language(files: Seq<InputFile>, language: Language) -> bool {
    exists|index: int| 0 <= index < files.len() && (#[trigger] files[index]).language == language
}

fn holds_language(files: &Vec<&InputFile>, language: Language) -> (answer: bool)
    ensures
        answer == has_language(referents(files@), language),
{
    let mut index: usize = 0;
    while index < files.len()
        invariant
            index <= files@.len(),
            forall|earlier: int|
                0 <= earlier < index ==> (#[trigger] referents(files@)[earlier]).language
                    != language,
        decreases files@.len() - index,
    {
        assert(referents(files@)[index as int] == *files@[index as int]);
        if files[index].language == language {
            return true;
        }
        index += 1;
    }
    false
}

fn total_language_burden(files: &Vec<&InputFile>, language: Language) -> (burden: InputBurden)
    ensures
        burden == language_burden(referents(files@), language),
{
    let ghost values = referents(files@);
    let ghost production_part = |burden: InputBurden| burden.production;
    let ghost test_part = |burden: InputBurden| burden.test;
    let ghost total_part = |burden: InputBurden| burden.total;
    let mut production: usize = 0;
    let mut test: usize = 0;
    let mut total: usize = 0;
    let mut index: usize = 0;
    while index < files.len()
        invariant
            index <= files@.len(),
            values == referents(files@),
            production_part == |burden: InputBurden| burden.production,
            test_part == |burden: InputBurden| burden.test,
            total_part == |burden: InputBurden| burden.total,
            production == clipped(
                language_burden_total(values, language, production_part, index as nat),
            ),
            test == clipped(language_burden_total(values, language, test_part, index as nat)),
            total == clipped(language_burden_total(values, language, total_part, index as nat)),
        decreases files@.len() - index,
    {
        let file = files[index];
        assert(values[index as int] == *file);
        if file.language == language {
            production = production.saturating_add(file.burden.production);
            test = test.saturating_add(file.burden.test);
            total = total.saturating_add(file.burden.total);
        }
        index += 1;
    }
    InputBurden { production, test, total }
}

/// The plain content of a language's difference.
pub struct LanguageDeltaView {
    pub language: Language,
    pub burden: BurdenDelta,
    pub components: Seq<ComponentDeltaView>,
}

impl View for LanguageDelta {
    type V = LanguageDeltaView;

    open spec fn view(&self) -> LanguageDeltaView {
        LanguageDeltaView {
            language: self.language,
            burden: self.burden,
            components: component_views(self.components@),
        }
    }
}

/// The plain contents of languages' differences.
pub open spec fn language_views(deltas: Seq<LanguageDelta>) -> Seq<LanguageDeltaView> {
    deltas.map_values(|delta: LanguageDelta| delta@)
}

/// What a comparison says of one language: nothing, where no file has it.
pub open spec fn language_difference(
    before_files: Seq<InputFile>,
    after_files: Seq<InputFile>,
    before: Seq<EntryView>,
    after: Seq<EntryView>,
    language: Language,
) -> Seq<LanguageDeltaView> {
    if has_language(before_files, language) || has_language(after_files, language) {
        seq![
            LanguageDeltaView {
                language,
                burden: burden_delta(
                    language_burden(before_files, language),
                    language_burden(after_files, language),
                ),
                components: component_differences(
                    component_totals(before, Some(language)),
                    component_totals(after, Some(language)),
                ),
            },
        ]
    } else {
        seq![]
    }
}

/// What a comparison says of the languages, in their order.
pub open spec fn language_differences(
    before_files: Seq<InputFile>,
    after_files: Seq<InputFile>,
    before: Seq<EntryView>,
    after: Seq<EntryView>,
) -> Seq<LanguageDeltaView> {
    language_difference(before_files, after_files, before, after, Language::Rust)
        + language_difference(before_files, after_files, before, after, Language::Python)
        + language_difference(before_files, after_files, before, after, Language::JavaScript)
        + language_difference(before_files, after_files, before, after, Language::TypeScript)
}

fn push_language_delta(
    before_files: &Vec<&InputFile>,
    after_files: &Vec<&InputFile>,
    before: &Vec<FunctionEntry>,
    after: &Vec<FunctionEntry>,
    language: Language,
    deltas: &mut Vec<LanguageDelta>,
)
    ensures
        language_views(final(deltas)@) == language_views(old(deltas)@) + language_difference(
            referents(before_files@),
            referents(after_files@),
            entry_views(before@),
            entry_views(after@),
            language,
        ),
{
    let ghost held = language_views(deltas@);
    let ghost expected = language_difference(
        referents(before_files@),
        referents(after_files@),
        entry_views(before@),
        entry_views(after@),
        language,
    );
    if holds_language(before_files, language) || holds_language(after_files, language) {
        let delta = LanguageDelta {
            language,
            burden: compare_burdens(
                &total_language_burden(before_files, language),
                &total_language_burden(after_files, language),
            ),
            components: component_deltas(
                total_components(before, Some(language)),
                total_components(after, Some(language)),
            ),
        };
        let ghost added = delta@;
        deltas.push(delta);
        assert(language_views(deltas@) =~= held.push(added));
        assert(expected =~= seq![added]);
    }
    assert(language_views(deltas@) =~= held + expected);
}

fn compare_languages(
    before_files: &Vec<&InputFile>,
    after_files: &Vec<&InputFile>,
    before: &Vec<FunctionEntry>,
    after: &Vec<FunctionEntry>,
) -> (deltas: Vec<LanguageDelta>)
    ensures
        language_views(deltas@) == language_differences(
            referents(before_files@),
            referents(after_files@),
            entry_views(before@),
            entry_views(after@),
        ),
{
    let mut deltas: Vec<LanguageDelta> = Vec::new();
    push_language_delta(before_files, after_files, before, after, Language::Rust, &mut deltas);
    push_language_delta(before_files, after_files, before, after, Language::Python, &mut deltas);
    push_language_delta(
        before_files,
        after_files,
        before,
        after,
        Language::JavaScript,
        &mut deltas,
    );
    push_language_delta(
        before_files,
        after_files,
        before,
        after,
        Language::TypeScript,
        &mut deltas,
    );
    assert(language_views(deltas@) =~= language_differences(
        referents(before_files@),
        referents(after_files@),
        entry_views(before@),
        entry_views(after@),
    ));
    deltas
}

/// The note that goes with every possible redistribution.
pub const REDISTRIBUTION_NOTE: &'static str =
    "This is only a possible redistribution; it proves no call or extraction relationship.";

/// Whether an entry belongs to a file and category.
pub open spec fn belongs(entry: EntryView, path: Seq<char>, category: Seq<char>) -> bool {
    entry.path == path && entry.category == category
}

/// The callables of a file and category, among the first `count` before, that
/// are matched within it and score lower after.
pub open spec fn reductions_upto(
    before: Seq<EntryView>,
    after: Seq<EntryView>,
    partners: Seq<Option<usize>>,
    path: Seq<char>,
    category: Seq<char>,
    count: nat,
) -> Seq<FunctionChangeView>
    decreases count,
{
    if count == 0 {
        Seq::empty()
    } else {
        let earlier = reductions_upto(
            before,
            after,
            partners,
            path,
            category,
            (count - 1) as nat,
        );
        let old_entry = before[count - 1];
        match partners[count - 1] {
            Some(partner) => {
                let new_entry = after[partner as int];
                if belongs(old_entry, path, category) && belongs(new_entry, path, category)
                    && new_entry.function.score.value < old_entry.function.score.value {
                    earlier.push(
                        change_of(
                            new_entry,
                            ChangeStatus::Changed,
                            Some(old_entry.function.score.value),
                            Some(new_entry.function.score.value),
                        ),
                    )
                } else {
                    earlier
                }
            },
            None => earlier,
        }
    }
}

/// Whether the `index`-th callable after is new in a file and category.
pub open spec fn added_to(
    after: Seq<EntryView>,
    partners: Seq<Option<usize>>,
    path: Seq<char>,
    category: Seq<char>,
    index: int,
) -> bool {
    open_after(partners, after.len())[index] && belongs(after[index], path, category)
}

/// How many of the first `count` callables after are new in a file and
/// category.
pub open spec fn added_count_upto(
    after: Seq<EntryView>,
    partners: Seq<Option<usize>>,
    path: Seq<char>,
    category: Seq<char>,
    count: nat,
) -> nat
    decreases count,
{
    if count == 0 {
        0
    } else {
        added_count_upto(after, partners, path, category, (count - 1) as nat) + if added_to(
            after,
            partners,
            path,
            category,
            count - 1,
        ) {
            1nat
        } else {
            0nat
        }
    }
}

/// The scores of those of the first `count` callables after that are new in a
/// file and category, added up.
pub open spec fn added_burden_upto(
    after: Seq<EntryView>,
    partners: Seq<Option<usize>>,
    path: Seq<char>,
    category: Seq<char>,
    count: nat,
) -> nat
    decreases count,
{
    if count == 0 {
        0
    } else {
        added_burden_upto(after, partners, path, category, (count - 1) as nat) + if added_to(
            after,
            partners,
            path,
            category,
            count - 1,
        ) {
            after[count - 1].function.score.value as nat
        } else {
            0
        }
    }
}

/// The burden of a category.
pub open spec fn category_burden(burden: InputBurden, category: Seq<char>) -> usize {
    if category == "production"@ {
        burden.production
    } else {
        burden.test
    }
}

/// The plain content of a hint.
pub struct RedistributionView {
    pub path: Seq<char>,
    pub category: Seq<char>,
    pub matched_reductions: Seq<FunctionChangeView>,
    pub added_count: nat,
    pub added_burden: usize,
    pub file_total: MetricDelta,
    pub note: Seq<char>,
}

impl View for RedistributionHint {
    type V = RedistributionView;

    open spec fn view(&self) -> RedistributionView {
        RedistributionView {
            path: self.path@,
            category: self.category@,
            matched_reductions: change_views(self.matched_reductions@),
            added_count: self.added_count as nat,
            added_burden: self.added_burden,
            file_total: self.file_total,
            note: self.note@,
        }
    }
}

/// The plain contents of hints.
pub open spec fn hint_views(hints: Seq<RedistributionHint>) -> Seq<RedistributionView> {
    hints.map_values(|hint: RedistributionHint| hint@)
}

/// The hint for one file and category, where there is one: some matched
/// callable got smaller, some callable is new, and the burden did not fall.
pub open spec fn redistribution(
    before: Seq<EntryView>,
    after: Seq<EntryView>,
    partners: Seq<Option<usize>>,
    old_file: InputFile,
    new_file: InputFile,
    category: Seq<char>,
) -> Seq<RedistributionView> {
    let path = old_file.path@;
    let reductions = reductions_upto(before, after, partners, path, category, before.len());
    let added_count = added_count_upto(after, partners, path, category, after.len());
    let old_total = category_burden(old_file.burden, category);
    let new_total = category_burden(new_file.burden, category);
    if reductions.len() == 0 || added_count == 0 || new_total < old_total {
        seq![]
    } else {
        seq![
            RedistributionView {
                path,
                category,
                matched_reductions: sorted(reductions, change_precedes()),
                added_count,
                added_burden: clipped(
                    added_burden_upto(after, partners, path, category, after.len()),
                ),
                file_total: metric(old_total, new_total),
                note: REDISTRIBUTION_NOTE@,
            },
        ]
    }
}

/// The hints for the first `count` files that both reports have.
pub open spec fn redistributions_upto(
    before: Seq<EntryView>,
    after: Seq<EntryView>,
    partners: Seq<Option<usize>>,
    pairs: Seq<FilePairView>,
    count: nat,
) -> Seq<RedistributionView>
    decreases count,
{
    if count == 0 {
        seq![]
    } else {
        let earlier = redistributions_upto(before, after, partners, pairs, (count - 1) as nat);
        match (pairs[count - 1].before, pairs[count - 1].after) {
            (Some(old_file), Some(new_file)) => earlier + redistribution(
                before,
                after,
                partners,
                old_file,
                new_file,
                "production"@,
            ) + redistribution(before, after, partners, old_file, new_file, "test"@),
            _ => earlier,
        }
    }
}

fn entry_belongs(entry: &FunctionEntry, path: &str, category: &str) -> (answer: bool)
    ensures
        answer == belongs(entry@, path@, category@),
{
    same_text(entry.function.category.as_str(), category) && same_text(
        entry.file.path.as_str(),
        path,
    )
}

fn collect_matched_reductions(
    before: &Vec<FunctionEntry>,
    after: &Vec<FunctionEntry>,
    partners: &Vec<Option<usize>>,
    path: &str,
    category: &str,
) -> (reductions: Vec<FunctionChange>)
    requires
        partners@.len() == before@.len(),
        partners_valid(partners@, after@.len()),
    ensures
        change_views(reductions@) == reductions_upto(
            entry_views(before@),
            entry_views(after@),
            partners@,
            path@,
            category@,
            before@.len(),
        ),
{
    let ghost old_views = entry_views(before@);
    let ghost new_views = entry_views(after@);
    let mut reductions: Vec<FunctionChange> = Vec::new();
    let mut index: usize = 0;
    assert(change_views(reductions@) =~= Seq::<FunctionChangeView>::empty());
    while index < before.len()
        invariant
            index <= before@.len(),
            old_views == entry_views(before@),
            new_views == entry_views(after@),
            partners@.len() == before@.len(),
            partners_valid(partners@, after@.len()),
            change_views(reductions@) == reductions_upto(
                old_views,
                new_views,
                partners@,
                path@,
                category@,
                index as nat,
            ),
        decreases before@.len() - index,
    {
        let ghost held = change_views(reductions@);
        let old_entry = &before[index];
        assert(old_views[index as int] == old_entry@);
        if let Some(partner) = partners[index] {
            assert(partners@[index as int] == Some(partner));
            let new_entry = &after[partner];
            assert(new_views[partner as int] == new_entry@);
            if entry_belongs(old_entry, path, category) && entry_belongs(new_entry, path, category)
                && new_entry.function.score.value < old_entry.function.score.value {
                let change = function_change(
                    new_entry,
                    ChangeStatus::Changed,
                    Some(old_entry.function.score.value),
                    Some(new_entry.function.score.value),
                );
                let ghost added = change@;
                reductions.push(change);
                assert(change_views(reductions@) =~= held.push(added));
            }
        }
        index += 1;
    }
    reductions
}

fn added_callable_summary(
    after: &Vec<FunctionEntry>,
    partners: &Vec<Option<usize>>,
    path: &str,
    category: &str,
) -> (summary: (usize, usize))
    requires
        partners_valid(partners@, after@.len()),
    ensures
        summary.0 == added_count_upto(
            entry_views(after@),
            partners@,
            path@,
            category@,
            after@.len(),
        ),
        summary.1 == clipped(
            added_burden_upto(entry_views(after@), partners@, path@, category@, after@.len()),
        ),
{
    let ghost views = entry_views(after@);
    let open = list_open_after(partners, after.len());
    let mut count: usize = 0;
    let mut burden: usize = 0;
    let mut index: usize = 0;
    while index < after.len()
        invariant
            index <= after@.len(),
            count <= index,
            views == entry_views(after@),
            open@ == open_after(partners@, after@.len()),
            count == added_count_upto(views, partners@, path@, category@, index as nat),
            burden == clipped(
                added_burden_upto(views, partners@, path@, category@, index as nat),
            ),
        decreases after@.len() - index,
    {
        let entry = &after[index];
        assert(views[index as int] == entry@);
        assert(open_after(partners@, views.len())[index as int] == open@[index as int]);
        if open[index] && entry_belongs(entry, path, category) {
            count = count + 1;
            burden = burden.saturating_add(entry.function.score.value);
        }
        index += 1;
    }
    (count, burden)
}

fn category_file_burden(file: &InputFile, category: &str) -> (burden: usize)
    ensures
        burden == category_burden(file.burden, category@),
{
    if same_text(category, "production") {
        file.burden.production
    } else {
        file.burden.test
    }
}

fn push_redistribution_hint(
    before: &Vec<FunctionEntry>,
    after: &Vec<FunctionEntry>,
    partners: &Vec<Option<usize>>,
    old_file: &InputFile,
    new_file: &InputFile,
    category: &str,
    hints: &mut Vec<RedistributionHint>,
)
    requires
        partners@.len() == before@.len(),
        partners_valid(partners@, after@.len()),
    ensures
        hint_views(final(hints)@) == hint_views(old(hints)@) + redistribution(
            entry_views(before@),
            entry_views(after@),
            partners@,
            *old_file,
            *new_file,
            category@,
        ),
{
    let ghost held = hint_views(hints@);
    let path = old_file.path.as_str();
    let reductions = collect_matched_reductions(before, after, partners, path, category);
    let (added_count, added_burden) = added_callable_summary(after, partners, path, category);
    let old_total: usize = category_file_burden(old_file, category);
    let new_total: usize = category_file_burden(new_file, category);
    assert(change_views(reductions@).len() == reductions@.len());
    assert(entry_views(before@).len() == before@.len());
    assert(entry_views(after@).len() == after@.len());
    if reductions.is_empty() || added_count == 0 || new_total < old_total {
        assert(hint_views(hints@) =~= held + seq![]);
        return ;
    }
    let hint = RedistributionHint {
        path: old_file.path.clone(),
        category: category.to_owned(),
        matched_reductions: sort_function_changes(reductions),
        added_count,
        added_burden,
        file_total: metric_delta(old_total, new_total),
        note: REDISTRIBUTION_NOTE.to_owned(),
    };
    let ghost added = hint@;
    hints.push(hint);
    assert(hint_views(hints@) =~= held + seq![added]);
}

fn possible_redistributions(
    before: &Vec<FunctionEntry>,
    after: &Vec<FunctionEntry>,
    partners: &Vec<Option<usize>>,
    pairs: &Vec<FilePair>,
) -> (hints: Vec<RedistributionHint>)
    requires
        partners@.len() == before@.len(),
        partners_valid(partners@, after@.len()),
    ensures
        hint_views(hints@) == redistributions_upto(
            entry_views(before@),
            entry_views(after@),
            partners@,
            pair_views(pairs@),
            pairs@.len(),
        ),
{
    let ghost views = pair_views(pairs@);
    let mut hints: Vec<RedistributionHint> = Vec::new();
    let mut index: usize = 0;
    assert(hint_views(hints@) =~= seq![]);
    while index < pairs.len()
        invariant
            index <= pairs@.len(),
            views == pair_views(pairs@),
            partners@.len() == before@.len(),
            partners_valid(partners@, after@.len()),
            hint_views(hints@) == redistributions_upto(
                entry_views(before@),
                entry_views(after@),
                partners@,
                views,
                index as nat,
            ),
        decreases pairs@.len() - index,
    {
        let pair = &pairs[index];
        assert(views[index as int] == pair@);
        if let (Some(old_file), Some(new_file)) = (pair.before, pair.after) {
            push_redistribution_hint(
                before,
                after,
                partners,
                old_file,
                new_file,
                "production",
                &mut hints,
            );
            push_redistribution_hint(
                before,
                after,
                partners,
                old_file,
                new_file,
                "test",
                &mut hints,
            );
        }
        index += 1;
    }
    hints
}

/// What a comparison that is made warns of.
pub open spec fn comparison_warnings(before: InputReport, after: InputReport) -> Seq<Seq<char>> {
    let old_entries = entries(before.files@);
    let new_entries = entries(after.files@);
    let unclear = ambiguous_upto(
        old_entries,
        new_entries,
        partners(old_entries, new_entries),
        old_entries.len(),
    );
    (if before.root@ != after.root@ {
        seq![root_difference(before.root@, after.root@)]
    } else {
        seq![]
    }) + (if file_set_differs(file_pairs(before, after)) {
        seq![
            "file set changed; aggregate burden and component deltas include added and removed files"@,
        ]
    } else {
        seq![]
    }) + (if before.version@ != after.version@ {
        seq![
            "report versions differ: "@ + before.version@ + " before, "@ + after.version@
                + " after; the score model still matches"@,
        ]
    } else {
        seq![]
    }) + (if before.coverage.test_files != after.coverage.test_files {
        seq![
            "test-file classification changed: "@ + decimal(before.coverage.test_files as nat)
                + " before, "@ + decimal(after.coverage.test_files as nat) + " after"@,
        ]
    } else {
        seq![]
    }) + (if unclear > 0 {
        seq![
            "ambiguous identity evidence leaves "@ + decimal(unclear) + " callable(s) unmatched"@,
        ]
    } else {
        seq![]
    })
}

fn collect_warnings(
    before: &InputReport,
    after: &InputReport,
    file_set_changed: bool,
    unclear: usize,
) -> (warnings: Vec<String>)
    requires
        file_set_changed == file_set_differs(file_pairs(*before, *after)),
        unclear == ambiguous_upto(
            entries(before.files@),
            entries(after.files@),
            partners(entries(before.files@), entries(after.files@)),
            entries(before.files@).len(),
        ),
    ensures
        texts(warnings@) == comparison_warnings(*before, *after),
{
    let mut warnings: Vec<String> = Vec::new();
    assert(texts(warnings@) =~= seq![]);
    if before.root != after.root {
        push_issue(&mut warnings, describe_roots(before, after));
    }
    if file_set_changed {
        push_issue(
            &mut warnings,
            "file set changed; aggregate burden and component deltas include added and removed files".to_owned(),
        );
    }
    if before.version != after.version {
        let mut warning = "report versions differ: ".to_owned();
        warning.append(before.version.as_str());
        warning.append(" before, ");
        warning.append(after.version.as_str());
        warning.append(" after; the score model still matches");
        push_issue(&mut warnings, warning);
    }
    if before.coverage.test_files != after.coverage.test_files {
        let mut warning = "test-file classification changed: ".to_owned();
        push_decimal(&mut warning, before.coverage.test_files);
        warning.append(" before, ");
        push_decimal(&mut warning, after.coverage.test_files);
        warning.append(" after");
        push_issue(&mut warnings, warning);
    }
    if unclear > 0 {
        let mut warning = "ambiguous identity evidence leaves ".to_owned();
        push_decimal(&mut warning, unclear);
        warning.append(" callable(s) unmatched");
        push_issue(&mut warnings, warning);
    }
    assert(texts(warnings@) =~= comparison_warnings(*before, *after));
    warnings
}

fn metadata(path: &str, report: &InputReport) -> (result: ReportMetadata)
    ensures
        describes_report(result, path@, *report),
{
    ReportMetadata {
        path: path.to_owned(),
        root: report.root.clone(),
        version: report.version.clone(),
        model: report.model.clone(),
        analysis_contract: report.analysis_contract.clone(),
        evidence_version: report.evidence_version.clone(),
    }
}

/// Whether metadata are those of a report at a path.
pub open spec fn describes_report(
    metadata: ReportMetadata,
    path: Seq<char>,
    report: InputReport,
) -> bool {
    &&& metadata.path@ == path
    &&& metadata.root == report.root
    &&& metadata.version == report.version
    &&& metadata.model == report.model
    &&& metadata.analysis_contract == report.analysis_contract
    &&& metadata.evidence_version == report.evidence_version
}

/// Whether a comparison says of two reports all that it should.
pub open spec fn compares(
    comparison: Comparison,
    before_path: Seq<char>,
    after_path: Seq<char>,
    before: InputReport,
    after: InputReport,
) -> bool {
    let pairs = file_pairs(before, after);
    let old_entries = entries(before.files@);
    let new_entries = entries(after.files@);
    let matched = partners(old_entries, new_entries);
    &&& comparison.comparable
    &&& describes_report(comparison.before, before_path, before)
    &&& describes_report(comparison.after, after_path, after)
    &&& comparison.scope == (ScopeSummary {
        root: before.root,
        files: before.files@.len() as usize,
        before_files: before.files@.len() as usize,
        after_files: after.files@.len() as usize,
        file_set_changed: file_set_differs(pairs),
        before_test_files: before.coverage.test_files,
        after_test_files: after.coverage.test_files,
        coverage_complete: before.coverage.complete && after.coverage.complete,
    })
    &&& texts(comparison.file_changes.added@) == added_paths(pairs, pairs.len())
    &&& texts(comparison.file_changes.removed@) == removed_paths(pairs, pairs.len())
    &&& file_burden_views(comparison.file_burdens@) == file_burdens(pairs)
    &&& comparison.burden == burden_delta(before.summary.burden, after.summary.burden)
    &&& comparison.callables.production == category_stats(
        old_entries,
        new_entries,
        "production"@,
    )
    &&& comparison.callables.test == category_stats(old_entries, new_entries, "test"@)
    &&& comparison.macro_opacity == (MacroOpacityDelta {
        invocations: metric(before.macro_opacity.invocations, after.macro_opacity.invocations),
        source_tokens: metric(
            before.macro_opacity.source_tokens,
            after.macro_opacity.source_tokens,
        ),
        definitions: metric(before.macro_opacity.definitions, after.macro_opacity.definitions),
        definition_tokens: metric(
            before.macro_opacity.definition_tokens,
            after.macro_opacity.definition_tokens,
        ),
    })
    &&& component_views(comparison.components@) == component_differences(
        component_totals(old_entries, None),
        component_totals(new_entries, None),
    )
    &&& language_views(comparison.language_deltas@) == language_differences(
        files_by_path(before.files@),
        files_by_path(after.files@),
        old_entries,
        new_entries,
    )
    &&& lists_changes(comparison.functions, old_entries, new_entries, matched)
    &&& hint_views(comparison.possible_redistributions@) == redistributions_upto(
        old_entries,
        new_entries,
        matched,
        pairs,
        pairs.len(),
    )
    &&& texts(comparison.warnings@) == comparison_warnings(before, after)
}

/// Compare two complete reports. The comparison is refused, with all that is
/// wrong, unless both are complete and describe the same scope in one way.
pub fn compare_reports(
    before_path: &str,
    after_path: &str,
    before: &InputReport,
    after: &InputReport,
    options: CompareOptions,
) -> (result: Result<Comparison, DiffError>)
    ensures
        result is Ok <==> refusal(*before, *after, options).len() == 0,
        result matches Ok(comparison) ==> compares(
            comparison,
            before_path@,
            after_path@,
            *before,
            *after,
        ),
        result matches Err(error) ==> (error matches DiffError::Incompatible { issues } && texts(
            issues@,
        ) == refusal(*before, *after, options)),
{
    let mut issues: Vec<String> = Vec::new();
    assert(texts(issues@) =~= seq![]);
    validate_identity("before", before, &mut issues);
    validate_identity("after", after, &mut issues);
    validate_agreement(before, after, options, &mut issues);
    validate_coverage("before", before, &mut issues);
    validate_coverage("after", after, &mut issues);
    validate_paths("before", before, &mut issues);
    validate_paths("after", after, &mut issues);
    let before_files = file_map(&before.files);
    let after_files = file_map(&after.files);
    let pairs = pair_files(&before_files, &after_files);
    let ghost pair_list = file_pairs(*before, *after);
    assert(pair_views(pairs@) == pair_list);
    assert(pair_list.len() == pairs@.len());
    let file_changes = list_file_changes(&pairs);
    validate_scope(&file_changes, options, &mut issues, Ghost(pair_list));
    assert(texts(issues@) =~= comparison_issues(*before, *after, options));
    assert(texts(issues@).len() == issues@.len());
    if !issues.is_empty() {
        return Err(DiffError::Incompatible { issues });
    }
    let old_entries = match function_map("before", &before_files) {
        Ok(listed) => listed,
        Err(issue) => {
            let mut issues: Vec<String> = Vec::new();
            assert(texts(issues@) =~= seq![]);
            push_issue(&mut issues, issue);
            assert(texts(issues@) =~= refusal(*before, *after, options));
            return Err(DiffError::Incompatible { issues });
        },
    };
    let new_entries = match function_map("after", &after_files) {
        Ok(listed) => listed,
        Err(issue) => {
            let mut issues: Vec<String> = Vec::new();
            assert(texts(issues@) =~= seq![]);
            push_issue(&mut issues, issue);
            assert(texts(issues@) =~= refusal(*before, *after, options));
            return Err(DiffError::Incompatible { issues });
        },
    };
    assert(entry_views(old_entries@).len() == old_entries@.len());
    let matched = match_entries(&old_entries, &new_entries);
    let functions = compare_functions(&old_entries, &new_entries, &matched);
    let components = component_deltas(
        total_components(&old_entries, None),
        total_components(&new_entries, None),
    );
    let language_deltas = compare_languages(
        &before_files,
        &after_files,
        &old_entries,
        &new_entries,
    );
    let file_burdens = file_burden_deltas(&pairs);
    let possible_redistributions = possible_redistributions(
        &old_entries,
        &new_entries,
        &matched,
        &pairs,
    );
    assert(texts(file_changes.added@).len() == file_changes.added@.len());
    assert(texts(file_changes.removed@).len() == file_changes.removed@.len());
    let file_set_changed: bool = !file_changes.added.is_empty()
        || !file_changes.removed.is_empty();
    let warnings = collect_warnings(
        before,
        after,
        file_set_changed,
        count_ambiguous(&old_entries, &new_entries, &matched),
    );
    Ok(
        Comparison {
            comparable: true,
            before: metadata(before_path, before),
            after: metadata(after_path, after),
            scope: ScopeSummary {
                root: before.root.clone(),
                files: before.files.len(),
                before_files: before.files.len(),
                after_files: after.files.len(),
                file_set_changed,
                before_test_files: before.coverage.test_files,
                after_test_files: after.coverage.test_files,
                coverage_complete: before.coverage.complete && after.coverage.complete,
            },
            file_changes,
            file_burdens,
            burden: compare_burdens(&before.summary.burden, &after.summary.burden),
            callables: CallableStatsDelta {
                production: callable_stats(&old_entries, &new_entries, "production"),
                test: callable_stats(&old_entries, &new_entries, "test"),
            },
            macro_opacity: MacroOpacityDelta {
                invocations: metric_delta(
                    before.macro_opacity.invocations,
                    after.macro_opacity.invocations,
                ),
                source_tokens: metric_delta(
                    before.macro_opacity.source_tokens,
                    after.macro_opacity.source_tokens,
                ),
                definitions: metric_delta(
                    before.macro_opacity.definitions,
                    after.macro_opacity.definitions,
                ),
                definition_tokens: metric_delta(
                    before.macro_opacity.definition_tokens,
                    after.macro_opacity.definition_tokens,
                ),
            },
            components,
            language_deltas,
            functions,
            possible_redistributions,
            warnings,
        },
    )
}

pub(crate) fn copy_texts(items: &Vec<String>) -> (copy: Vec<String>)
    ensures
        copy@ == items@,
{
    let copy = items.clone();
    assert(copy@ =~= items@);
    copy
}

pub(crate) fn copy_scope(scope: &ScopeSummary) -> (copy: ScopeSummary)
    ensures
        copy == *scope,
{
    ScopeSummary {
        root: scope.root.clone(),
        files: scope.files,
        before_files: scope.before_files,
        after_files: scope.after_files,
        file_set_changed: scope.file_set_changed,
        before_test_files: scope.before_test_files,
        after_test_files: scope.after_test_files,
        coverage_complete: scope.coverage_complete,
    }
}

pub(crate) fn copy_metadata(metadata: &ReportMetadata) -> (copy: ReportMetadata)
    ensures
        copy == *metadata,
{
    ReportMetadata {
        path: metadata.path.clone(),
        root: metadata.root.clone(),
        version: metadata.version.clone(),
        model: metadata.model.clone(),
        analysis_contract: metadata.analysis_contract.clone(),
        evidence_version: metadata.evidence_version.clone(),
    }
}

pub(crate) fn copy_file_changes(changes: &FileChanges) -> (copy: FileChanges)
    ensures
        copy.added@ == changes.added@,
        copy.removed@ == changes.removed@,
{
    FileChanges { added: copy_texts(&changes.added), removed: copy_texts(&changes.removed) }
}

pub(crate) fn copy_burdens(burdens: &Vec<FileBurdenDelta>) -> (copy: Vec<FileBurdenDelta>)
    ensures
        copy@ == burdens@,
{
    let mut copy: Vec<FileBurdenDelta> = Vec::new();
    let mut index: usize = 0;
    while index < burdens.len()
        invariant
            index <= burdens@.len(),
            copy@ =~= burdens@.take(index as int),
        decreases burdens@.len() - index,
    {
        let burden = &burdens[index];
        copy.push(
            FileBurdenDelta {
                path: burden.path.clone(),
                production: burden.production,
                test: burden.test,
                total: burden.total,
            },
        );
        index += 1;
    }
    assert(copy@ =~= burdens@);
    copy
}

pub(crate) fn copy_hints(hints: &Vec<RedistributionHint>) -> (copy: Vec<RedistributionHint>)
    ensures
        hint_views(copy@) == hint_views(hints@),
{
    let mut copy: Vec<RedistributionHint> = Vec::new();
    let mut index: usize = 0;
    while index < hints.len()
        invariant
            index <= hints@.len(),
            hint_views(copy@) =~= hint_views(hints@).take(index as int),
        decreases hints@.len() - index,
    {
        let ghost held = hint_views(copy@);
        let hint = &hints[index];
        let matched_reductions = hint.matched_reductions.clone();
        assert(matched_reductions@ =~= hint.matched_reductions@);
        let next = RedistributionHint {
            path: hint.path.clone(),
            category: hint.category.clone(),
            matched_reductions,
            added_count: hint.added_count,
            added_burden: hint.added_burden,
            file_total: hint.file_total,
            note: hint.note.clone(),
        };
        assert(next@ == hint_views(hints@)[index as int]);
        let ghost added = next@;
        copy.push(next);
        assert(hint_views(copy@) =~= held.push(added));
        index += 1;
    }
    assert(hint_views(copy@) =~= hint_views(hints@));
    copy
}

}
