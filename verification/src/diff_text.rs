//! A comparison as text for a terminal.
use vstd::prelude::*;
use vstd::string::StringExecFns;
use crate::deltas::{ComponentDelta, FunctionChange, MetricDelta};
use crate::diff::{
    CallableStats, Comparison, FileBurdenDelta, FileChanges, MacroOpacityDelta, RedistributionHint,
    ReportMetadata,
};
use crate::text::{
    decimal, padded, points, push_decimal, push_points, push_points_column, push_signed_decimal,
    push_signed_points, signed_decimal, signed_points,
};

verus! {

/// The line on one of the two reports.
pub open spec fn report_line(label: Seq<char>, report: ReportMetadata) -> Seq<char> {
    label + report.path@ + " · "@ + report.version@ + " · "@ + report.model@ + "\n"@
}

fn show_report(label: &str, report: &ReportMetadata) -> (line: String)
    ensures
        line@ == report_line(label@, *report),
{
    let mut line = label.to_owned();
    line.append(report.path.as_str());
    line.append(" · ");
    line.append(report.version.as_str());
    line.append(" · ");
    line.append(report.model.as_str());
    line.append("\n");
    line
}

/// The first `count` paths, each on a line of its own behind a mark.
pub open spec fn path_lines(paths: Seq<String>, mark: Seq<char>, count: nat) -> Seq<char>
    decreases count,
{
    if count == 0 {
        Seq::empty()
    } else {
        path_lines(paths, mark, (count - 1) as nat) + mark + paths[count - 1]@ + "\n"@
    }
}

fn show_lines(paths: &Vec<String>, mark: &str) -> (lines: String)
    ensures
        lines@ == path_lines(paths@, mark@, paths@.len()),
{
    let mut lines = String::new();
    let mut index: usize = 0;
    while index < paths.len()
        invariant
            index <= paths@.len(),
            lines@ == path_lines(paths@, mark@, index as nat),
        decreases paths@.len() - index,
    {
        lines.append(mark);
        lines.append(paths[index].as_str());
        lines.append("\n");
        index += 1;
    }
    lines
}

/// The lines on added and removed files.
pub open spec fn file_change_lines(changes: FileChanges) -> Seq<char> {
    "Added files · "@ + decimal(changes.added@.len()) + "\n"@ + path_lines(
        changes.added@,
        "  + "@,
        changes.added@.len(),
    ) + "Removed files · "@ + decimal(changes.removed@.len()) + "\n"@ + path_lines(
        changes.removed@,
        "  - "@,
        changes.removed@.len(),
    )
}

fn render_file_changes(changes: &FileChanges) -> (lines: String)
    ensures
        lines@ == file_change_lines(*changes),
{
    let mut lines = "Added files · ".to_owned();
    push_decimal(&mut lines, changes.added.len());
    lines.append("\n");
    lines.append(show_lines(&changes.added, "  + ").as_str());
    lines.append("Removed files · ");
    push_decimal(&mut lines, changes.removed.len());
    lines.append("\n");
    lines.append(show_lines(&changes.removed, "  - ").as_str());
    lines
}

/// The lines on what was compared.
pub open spec fn scope_lines(comparison: Comparison) -> Seq<char> {
    if comparison.scope.file_set_changed {
        "WARNING: file set changed · "@ + decimal(comparison.scope.before_files as nat)
            + " files before → "@ + decimal(comparison.scope.after_files as nat)
            + " files after\n"@ + file_change_lines(comparison.file_changes)
            + "Warning: aggregate burden and component deltas include added and removed files.\n"@
    } else {
        "Scope comparable · "@ + decimal(comparison.scope.files as nat)
            + " files · complete coverage\n"@
    }
}

fn render_scope(comparison: &Comparison) -> (lines: String)
    ensures
        lines@ == scope_lines(*comparison),
{
    if comparison.scope.file_set_changed {
        let mut lines = "WARNING: file set changed · ".to_owned();
        push_decimal(&mut lines, comparison.scope.before_files);
        lines.append(" files before → ");
        push_decimal(&mut lines, comparison.scope.after_files);
        lines.append(" files after\n");
        lines.append(render_file_changes(&comparison.file_changes).as_str());
        lines.append(
            "Warning: aggregate burden and component deltas include added and removed files.\n",
        );
        lines
    } else {
        let mut lines = "Scope comparable · ".to_owned();
        push_decimal(&mut lines, comparison.scope.files);
        lines.append(" files · complete coverage\n");
        lines
    }
}

/// Score units before and after, in score points, with their difference.
pub open spec fn score_change(delta: MetricDelta) -> Seq<char> {
    points(delta.before as nat) + " → "@ + points(delta.after as nat) + " ("@ + signed_points(
        delta.delta as int,
    ) + ")"@
}

fn show_score_change(delta: &MetricDelta) -> (text: String)
    ensures
        text@ == score_change(*delta),
{
    let mut text = String::new();
    push_points(&mut text, delta.before);
    assert(text@ =~= points(delta.before as nat));
    text.append(" → ");
    push_points(&mut text, delta.after);
    text.append(" (");
    push_signed_points(&mut text, delta.delta);
    text.append(")");
    text
}

/// A count before and after, with its difference.
pub open spec fn count_change(delta: MetricDelta) -> Seq<char> {
    decimal(delta.before as nat) + " → "@ + decimal(delta.after as nat) + " ("@ + signed_decimal(
        delta.delta as int,
    ) + ")"@
}

fn show_count_change(delta: &MetricDelta) -> (text: String)
    ensures
        text@ == count_change(*delta),
{
    let mut text = String::new();
    push_decimal(&mut text, delta.before);
    assert(text@ =~= decimal(delta.before as nat));
    text.append(" → ");
    push_decimal(&mut text, delta.after);
    text.append(" (");
    push_signed_decimal(&mut text, delta.delta);
    text.append(")");
    text
}

/// The line on a burden.
pub open spec fn metric_line(label: Seq<char>, delta: MetricDelta) -> Seq<char> {
    label + " · "@ + score_change(delta) + "\n"@
}

fn render_metric(label: &str, delta: &MetricDelta) -> (line: String)
    ensures
        line@ == metric_line(label@, *delta),
{
    let mut line = label.to_owned();
    line.append(" · ");
    line.append(show_score_change(delta).as_str());
    line.append("\n");
    line
}

/// The line on the callables of a category.
pub open spec fn stats_line(label: Seq<char>, stats: CallableStats) -> Seq<char> {
    label + " · count "@ + count_change(stats.count) + " · p95 "@ + score_change(stats.p95_score)
        + " · highest "@ + score_change(stats.highest_score) + "\n"@
}

fn render_callable_stats(label: &str, stats: &CallableStats) -> (line: String)
    ensures
        line@ == stats_line(label@, *stats),
{
    let mut line = label.to_owned();
    line.append(" · count ");
    line.append(show_count_change(&stats.count).as_str());
    line.append(" · p95 ");
    line.append(show_score_change(&stats.p95_score).as_str());
    line.append(" · highest ");
    line.append(show_score_change(&stats.highest_score).as_str());
    line.append("\n");
    line
}

/// Whether a file's burden differs in any part.
pub open spec fn burden_differs(file: FileBurdenDelta) -> bool {
    file.total.delta != 0 || file.production.delta != 0 || file.test.delta != 0
}

/// How many of the first `count` files have another burden.
pub open spec fn differing_files(files: Seq<FileBurdenDelta>, count: nat) -> nat
    decreases count,
{
    if count == 0 {
        0
    } else {
        differing_files(files, (count - 1) as nat) + if burden_differs(files[count - 1]) {
            1nat
        } else {
            0nat
        }
    }
}

/// The lines on those of the first `count` files that have another burden.
pub open spec fn differing_file_lines(files: Seq<FileBurdenDelta>, count: nat) -> Seq<char>
    decreases count,
{
    if count == 0 {
        Seq::empty()
    } else {
        let earlier = differing_file_lines(files, (count - 1) as nat);
        let file = files[count - 1];
        if burden_differs(file) {
            earlier + "  "@ + file.path@ + " · total "@ + signed_points(file.total.delta as int)
                + " · production "@ + signed_points(file.production.delta as int) + " · tests "@
                + signed_points(file.test.delta as int) + "\n"@
        } else {
            earlier
        }
    }
}

/// The part on the burden of files, where some differ.
pub open spec fn file_burden_part(files: Seq<FileBurdenDelta>) -> Seq<char> {
    if differing_files(files, files.len()) == 0 {
        Seq::empty()
    } else {
        "\nFile burden deltas · "@ + decimal(differing_files(files, files.len())) + " changed\n"@
            + differing_file_lines(files, files.len())
    }
}

fn render_file_burdens(files: &Vec<FileBurdenDelta>) -> (part: String)
    ensures
        part@ == file_burden_part(files@),
{
    let mut lines = String::new();
    let mut count: usize = 0;
    let mut index: usize = 0;
    while index < files.len()
        invariant
            index <= files@.len(),
            count <= index,
            count == differing_files(files@, index as nat),
            lines@ == differing_file_lines(files@, index as nat),
        decreases files@.len() - index,
    {
        let file = &files[index];
        if file.total.delta != 0 || file.production.delta != 0 || file.test.delta != 0 {
            count += 1;
            lines.append("  ");
            lines.append(file.path.as_str());
            lines.append(" · total ");
            push_signed_points(&mut lines, file.total.delta);
            lines.append(" · production ");
            push_signed_points(&mut lines, file.production.delta);
            lines.append(" · tests ");
            push_signed_points(&mut lines, file.test.delta);
            lines.append("\n");
        }
        index += 1;
    }
    if count == 0 {
        let empty = String::new();
        assert(empty@ =~= file_burden_part(files@));
        return empty;
    }
    let mut part = "\nFile burden deltas · ".to_owned();
    push_decimal(&mut part, count);
    part.append(" changed\n");
    part.append(lines.as_str());
    part
}

/// A score in score points, or a dash where there is none.
pub open spec fn optional_points(score: Option<usize>) -> Seq<char> {
    match score {
        Some(units) => points(units as nat),
        None => "—"@,
    }
}

fn push_optional_points(text: &mut String, score: Option<usize>)
    ensures
        final(text)@ == old(text)@ + optional_points(score),
{
    match score {
        Some(units) => push_points(text, units),
        None => text.append("—"),
    }
}

/// The lines on the first `count` changes.
pub open spec fn change_lines(changes: Seq<FunctionChange>, count: nat) -> Seq<char>
    decreases count,
{
    if count == 0 {
        Seq::empty()
    } else {
        let change = changes[count - 1];
        change_lines(changes, (count - 1) as nat) + "  "@ + padded(
            signed_points(change.delta as int),
            6,
        ) + "  "@ + change.path@ + " · "@ + change.name@ + " ["@ + change.category@ + "] ("@
            + optional_points(change.before_score) + " → "@ + optional_points(change.after_score)
            + ")\n"@
    }
}

/// The part on callables that changed in one way.
pub open spec fn change_group(label: Seq<char>, changes: Seq<FunctionChange>) -> Seq<char> {
    label + " · "@ + decimal(changes.len()) + "\n"@ + change_lines(changes, changes.len())
}

fn render_function_group(label: &str, changes: &Vec<FunctionChange>) -> (part: String)
    ensures
        part@ == change_group(label@, changes@),
{
    let mut lines = String::new();
    let mut index: usize = 0;
    while index < changes.len()
        invariant
            index <= changes@.len(),
            lines@ == change_lines(changes@, index as nat),
        decreases changes@.len() - index,
    {
        let change = &changes[index];
        lines.append("  ");
        push_points_column(&mut lines, change.delta);
        lines.append("  ");
        lines.append(change.path.as_str());
        lines.append(" · ");
        lines.append(change.name.as_str());
        lines.append(" [");
        lines.append(change.category.as_str());
        lines.append("] (");
        push_optional_points(&mut lines, change.before_score);
        lines.append(" → ");
        push_optional_points(&mut lines, change.after_score);
        lines.append(")\n");
        index += 1;
    }
    let mut part = label.to_owned();
    part.append(" · ");
    push_decimal(&mut part, changes.len());
    part.append("\n");
    part.append(lines.as_str());
    part
}

/// The lines on the first `count` reduced callables.
pub open spec fn reduction_lines(reductions: Seq<FunctionChange>, count: nat) -> Seq<char>
    decreases count,
{
    if count == 0 {
        Seq::empty()
    } else {
        reduction_lines(reductions, (count - 1) as nat) + "       reduced "@ + reductions[count
            - 1].name@ + " ("@ + signed_points(reductions[count - 1].delta as int) + ")\n"@
    }
}

/// The lines on a possible redistribution.
pub open spec fn hint_lines(hint: RedistributionHint) -> Seq<char> {
    "  "@ + hint.path@ + " ["@ + hint.category@ + "] · matched reductions "@ + decimal(
        hint.matched_reductions@.len(),
    ) + " · added burden "@ + points(hint.added_burden as nat) + " · file total "@ + signed_points(
        hint.file_total.delta as int,
    ) + "\n"@ + reduction_lines(hint.matched_reductions@, hint.matched_reductions@.len())
        + "       "@ + hint.note@ + "\n"@
}

fn render_redistribution(hint: &RedistributionHint) -> (lines: String)
    ensures
        lines@ == hint_lines(*hint),
{
    let mut reductions = String::new();
    let mut index: usize = 0;
    while index < hint.matched_reductions.len()
        invariant
            index <= hint.matched_reductions@.len(),
            reductions@ == reduction_lines(hint.matched_reductions@, index as nat),
        decreases hint.matched_reductions@.len() - index,
    {
        let reduction = &hint.matched_reductions[index];
        reductions.append("       reduced ");
        reductions.append(reduction.name.as_str());
        reductions.append(" (");
        push_signed_points(&mut reductions, reduction.delta);
        reductions.append(")\n");
        index += 1;
    }
    let mut lines = "  ".to_owned();
    lines.append(hint.path.as_str());
    lines.append(" [");
    lines.append(hint.category.as_str());
    lines.append("] · matched reductions ");
    push_decimal(&mut lines, hint.matched_reductions.len());
    lines.append(" · added burden ");
    push_points(&mut lines, hint.added_burden);
    lines.append(" · file total ");
    push_signed_points(&mut lines, hint.file_total.delta);
    lines.append("\n");
    lines.append(reductions.as_str());
    lines.append("       ");
    lines.append(hint.note.as_str());
    lines.append("\n");
    lines
}

/// The lines on the first `count` possible redistributions.
pub open spec fn hints_upto(hints: Seq<RedistributionHint>, count: nat) -> Seq<char>
    decreases count,
{
    if count == 0 {
        Seq::empty()
    } else {
        hints_upto(hints, (count - 1) as nat) + hint_lines(hints[count - 1])
    }
}

/// The part on possible redistributions, where there are any.
pub open spec fn hints_part(hints: Seq<RedistributionHint>) -> Seq<char> {
    if hints.len() == 0 {
        Seq::empty()
    } else {
        "\nPossible redistribution\n"@ + hints_upto(hints, hints.len())
    }
}

fn render_redistributions(hints: &Vec<RedistributionHint>) -> (part: String)
    ensures
        part@ == hints_part(hints@),
{
    let mut lines = String::new();
    if hints.is_empty() {
        assert(lines@ =~= hints_part(hints@));
        return lines;
    }
    let mut index: usize = 0;
    while index < hints.len()
        invariant
            index <= hints@.len(),
            lines@ == hints_upto(hints@, index as nat),
        decreases hints@.len() - index,
    {
        lines.append(render_redistribution(&hints[index]).as_str());
        index += 1;
    }
    let mut part = "\nPossible redistribution\n".to_owned();
    part.append(lines.as_str());
    part
}

/// How many of the first `count` components differ.
pub open spec fn differing_components(components: Seq<ComponentDelta>, count: nat) -> nat
    decreases count,
{
    if count == 0 {
        0
    } else {
        differing_components(components, (count - 1) as nat) + if components[count - 1].delta
            != 0 {
            1nat
        } else {
            0nat
        }
    }
}

/// The lines on the first five differing components among the first `count`.
pub open spec fn component_lines(components: Seq<ComponentDelta>, count: nat) -> Seq<char>
    decreases count,
{
    if count == 0 {
        Seq::empty()
    } else {
        let earlier = component_lines(components, (count - 1) as nat);
        let component = components[count - 1];
        if component.delta != 0 && differing_components(components, (count - 1) as nat) < 5 {
            earlier + "  "@ + padded(signed_points(component.delta as int), 6) + "  "@
                + component.name@ + " ("@ + points(component.before as nat) + " → "@ + points(
                component.after as nat,
            ) + ")\n"@
        } else {
            earlier
        }
    }
}

/// The part on score components.
pub open spec fn component_part(components: Seq<ComponentDelta>) -> Seq<char> {
    "\nTop score component deltas\n"@ + component_lines(components, components.len()) + if
    differing_components(components, components.len()) == 0 {
        "  No score component changed.\n"@
    } else {
        Seq::empty()
    }
}

fn render_components(components: &Vec<ComponentDelta>) -> (part: String)
    ensures
        part@ == component_part(components@),
{
    let mut lines = String::new();
    let mut count: usize = 0;
    let mut index: usize = 0;
    while index < components.len()
        invariant
            index <= components@.len(),
            count <= index,
            count == differing_components(components@, index as nat),
            lines@ == component_lines(components@, index as nat),
        decreases components@.len() - index,
    {
        let component = &components[index];
        if component.delta != 0 {
            if count < 5 {
                lines.append("  ");
                push_points_column(&mut lines, component.delta);
                lines.append("  ");
                lines.append(component.name.as_str());
                lines.append(" (");
                push_points(&mut lines, component.before);
                lines.append(" → ");
                push_points(&mut lines, component.after);
                lines.append(")\n");
            }
            count += 1;
        }
        index += 1;
    }
    let mut part = "\nTop score component deltas\n".to_owned();
    part.append(lines.as_str());
    if count == 0 {
        part.append("  No score component changed.\n");
    }
    assert(part@ =~= component_part(components@));
    part
}

/// The lines on macros.
pub open spec fn macro_lines(opacity: MacroOpacityDelta) -> Seq<char> {
    "\nMacro opacity · invocations "@ + count_change(opacity.invocations) + " · source tokens "@
        + count_change(opacity.source_tokens) + "\nMacro definitions · "@ + count_change(
        opacity.definitions,
    ) + " · definition tokens "@ + count_change(opacity.definition_tokens) + "\n"@
}

fn render_macros(opacity: &MacroOpacityDelta) -> (lines: String)
    ensures
        lines@ == macro_lines(*opacity),
{
    let mut lines = "\nMacro opacity · invocations ".to_owned();
    lines.append(show_count_change(&opacity.invocations).as_str());
    lines.append(" · source tokens ");
    lines.append(show_count_change(&opacity.source_tokens).as_str());
    lines.append("\nMacro definitions · ");
    lines.append(show_count_change(&opacity.definitions).as_str());
    lines.append(" · definition tokens ");
    lines.append(show_count_change(&opacity.definition_tokens).as_str());
    lines.append("\n");
    lines
}

/// The line on test files, where their number differs.
pub open spec fn test_file_line(comparison: Comparison) -> Seq<char> {
    if comparison.scope.before_test_files != comparison.scope.after_test_files {
        "Test-file classification · "@ + decimal(comparison.scope.before_test_files as nat) + " → "@
            + decimal(comparison.scope.after_test_files as nat) + "\n"@
    } else {
        Seq::empty()
    }
}

/// The part on warnings, where there are any.
pub open spec fn warning_part(warnings: Seq<String>) -> Seq<char> {
    if warnings.len() == 0 {
        Seq::empty()
    } else {
        "\nWarnings\n"@ + path_lines(warnings, "  - "@, warnings.len())
    }
}

fn render_test_files(comparison: &Comparison) -> (line: String)
    ensures
        line@ == test_file_line(*comparison),
{
    let mut line = String::new();
    if comparison.scope.before_test_files != comparison.scope.after_test_files {
        line = "Test-file classification · ".to_owned();
        push_decimal(&mut line, comparison.scope.before_test_files);
        line.append(" → ");
        push_decimal(&mut line, comparison.scope.after_test_files);
        line.append("\n");
    }
    assert(line@ =~= test_file_line(*comparison));
    line
}

fn render_warnings(warnings: &Vec<String>) -> (part: String)
    ensures
        part@ == warning_part(warnings@),
{
    if warnings.is_empty() {
        let empty = String::new();
        assert(empty@ =~= warning_part(warnings@));
        return empty;
    }
    let mut part = "\nWarnings\n".to_owned();
    part.append(show_lines(warnings, "  - ").as_str());
    part
}

/// The whole comparison as text.
pub open spec fn comparison_text(comparison: Comparison) -> Seq<char> {
    "Kompass diff · "@ + comparison.scope.root@ + "\n"@ + report_line(
        "Before: "@,
        comparison.before,
    ) + report_line("After:  "@, comparison.after) + scope_lines(comparison) + "\n"@ + metric_line(
        "Production burden"@,
        comparison.burden.production,
    ) + metric_line("Test burden"@, comparison.burden.test) + metric_line(
        "Repository burden"@,
        comparison.burden.total,
    ) + "\nCallable summary deltas\n"@ + stats_line(
        "Production"@,
        comparison.callables.production,
    ) + stats_line("Tests"@, comparison.callables.test) + file_burden_part(
        comparison.file_burdens@,
    ) + "\nCallables\n"@ + change_group("Changed callables"@, comparison.functions.changed@)
        + change_group("Moved callables"@, comparison.functions.moved@) + change_group(
        "Added callables"@,
        comparison.functions.added@,
    ) + change_group("Removed callables"@, comparison.functions.removed@) + hints_part(
        comparison.possible_redistributions@,
    ) + component_part(comparison.components@) + macro_lines(comparison.macro_opacity)
        + test_file_line(comparison) + warning_part(comparison.warnings@)
}

/// A completed comparison for a terminal.
pub fn render_text(comparison: &Comparison) -> (text: String)
    ensures
        text@ == comparison_text(*comparison),
{
    let mut text = "Kompass diff · ".to_owned();
    text.append(comparison.scope.root.as_str());
    text.append("\n");
    text.append(show_report("Before: ", &comparison.before).as_str());
    text.append(show_report("After:  ", &comparison.after).as_str());
    text.append(render_scope(comparison).as_str());
    text.append("\n");
    text.append(render_metric("Production burden", &comparison.burden.production).as_str());
    text.append(render_metric("Test burden", &comparison.burden.test).as_str());
    text.append(render_metric("Repository burden", &comparison.burden.total).as_str());
    text.append("\nCallable summary deltas\n");
    text.append(render_callable_stats("Production", &comparison.callables.production).as_str());
    text.append(render_callable_stats("Tests", &comparison.callables.test).as_str());
    text.append(render_file_burdens(&comparison.file_burdens).as_str());
    text.append("\nCallables\n");
    text.append(render_function_group("Changed callables", &comparison.functions.changed).as_str());
    text.append(render_function_group("Moved callables", &comparison.functions.moved).as_str());
    text.append(render_function_group("Added callables", &comparison.functions.added).as_str());
    text.append(render_function_group("Removed callables", &comparison.functions.removed).as_str());
    text.append(render_redistributions(&comparison.possible_redistributions).as_str());
    text.append(render_components(&comparison.components).as_str());
    text.append(render_macros(&comparison.macro_opacity).as_str());
    text.append(render_test_files(comparison).as_str());
    text.append(render_warnings(&comparison.warnings).as_str());
    text
}

}
