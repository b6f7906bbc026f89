//! A report as text for a terminal.
use vstd::prelude::*;
use vstd::string::StringExecFns;
use crate::explain::{select, selection, ExplainCandidate, ExplainComponent, ExplainReport};
use crate::model::{
    AnalysisError, Category, CategorySummary, ErrorKind, FileReport, FunctionReport, Language,
    LanguageCounts, Location, Report, SortBy,
};
use crate::order::{
    chained, compare_numbers, compare_text, number_relation, referents, sort_references, sorted,
    text_relation, Relation,
};
use crate::ranking::{rank_functions, ranked, ranked_views, RankedFunction, RankedView, Selection};
use crate::sums::{clipped, multiplied};
use crate::text::{decimal, padded, points, push_decimal, push_padded, push_points};

verus! {

/// Score units in score points.
pub fn format_score(units: usize) -> (text: String)
    ensures
        text@ == points(units as nat),
{
    let mut text = String::new();
    push_points(&mut text, units);
    assert(text@ =~= points(units as nat));
    text
}

/// How many of the first `count` files are of a language.
pub open spec fn language_count(files: Seq<FileReport>, language: Language, count: nat) -> nat
    decreases count,
{
    if count == 0 {
        0
    } else {
        language_count(files, language, (count - 1) as nat) + if files[count - 1].language
            == language {
            1nat
        } else {
            0nat
        }
    }
}

/// The files of each language: as the summary counts them, or as they are
/// listed where it counts none.
pub open spec fn effective_counts(report: Report) -> LanguageCounts {
    let counts = report.summary.languages;
    if counts.rust != 0 || counts.python != 0 || counts.javascript != 0 || counts.typescript != 0 {
        counts
    } else {
        let files = report.files@;
        LanguageCounts {
            rust: language_count(files, Language::Rust, files.len()) as usize,
            python: language_count(files, Language::Python, files.len()) as usize,
            javascript: language_count(files, Language::JavaScript, files.len()) as usize,
            typescript: language_count(files, Language::TypeScript, files.len()) as usize,
        }
    }
}

fn count_language(files: &Vec<FileReport>, language: Language) -> (number: usize)
    ensures
        number == language_count(files@, language, files@.len()),
{
    let mut number: usize = 0;
    let mut index: usize = 0;
    while index < files.len()
        invariant
            index <= files@.len(),
            number <= index,
            number == language_count(files@, language, index as nat),
        decreases files@.len() - index,
    {
        if files[index].language == language {
            number += 1;
        }
        index += 1;
    }
    number
}

fn effective_language_counts(report: &Report) -> (counts: LanguageCounts)
    ensures
        counts == effective_counts(*report),
{
    let counts = report.summary.languages;
    if counts.rust != 0 || counts.python != 0 || counts.javascript != 0 || counts.typescript != 0 {
        return counts;
    }
    LanguageCounts {
        rust: count_language(&report.files, Language::Rust),
        python: count_language(&report.files, Language::Python),
        javascript: count_language(&report.files, Language::JavaScript),
        typescript: count_language(&report.files, Language::TypeScript),
    }
}

/// The one language of a report, or that there is not one.
pub open spec fn header_language(counts: LanguageCounts) -> Seq<char> {
    if counts.rust > 0 && counts.python == 0 && counts.javascript == 0 && counts.typescript == 0 {
        "Rust"@
    } else if counts.rust == 0 && counts.python > 0 && counts.javascript == 0 && counts.typescript
        == 0 {
        "Python"@
    } else if counts.rust == 0 && counts.python == 0 && counts.javascript > 0 && counts.typescript
        == 0 {
        "JavaScript"@
    } else if counts.rust == 0 && counts.python == 0 && counts.javascript == 0 && counts.typescript
        > 0 {
        "TypeScript"@
    } else {
        "Mixed-language"@
    }
}

fn language_header(counts: &LanguageCounts) -> (header: &'static str)
    ensures
        header@ == header_language(*counts),
{
    let rust: bool = counts.rust > 0;
    let python: bool = counts.python > 0;
    let javascript: bool = counts.javascript > 0;
    let typescript: bool = counts.typescript > 0;
    if rust && !python && !javascript && !typescript {
        "Rust"
    } else if !rust && python && !javascript && !typescript {
        "Python"
    } else if !rust && !python && javascript && !typescript {
        "JavaScript"
    } else if !rust && !python && !javascript && typescript {
        "TypeScript"
    } else {
        "Mixed-language"
    }
}

/// The line on languages. JavaScript and TypeScript are named where there are
/// files of either.
pub open spec fn language_line(counts: LanguageCounts) -> Seq<char> {
    "Languages · "@ + decimal(counts.rust as nat) + " Rust files · "@ + decimal(
        counts.python as nat,
    ) + " Python files"@ + (if counts.javascript > 0 || counts.typescript > 0 {
        " · "@ + decimal(counts.javascript as nat) + " JavaScript files · "@ + decimal(
            counts.typescript as nat,
        ) + " TypeScript files\n"@
    } else {
        "\n"@
    })
}

fn render_languages(counts: &LanguageCounts) -> (line: String)
    ensures
        line@ == language_line(*counts),
{
    let mut rest = "\n".to_owned();
    if counts.javascript > 0 || counts.typescript > 0 {
        rest = " · ".to_owned();
        push_decimal(&mut rest, counts.javascript);
        rest.append(" JavaScript files · ");
        push_decimal(&mut rest, counts.typescript);
        rest.append(" TypeScript files\n");
    }
    let mut line = "Languages · ".to_owned();
    push_decimal(&mut line, counts.rust);
    line.append(" Rust files · ");
    push_decimal(&mut line, counts.python);
    line.append(" Python files");
    line.append(rest.as_str());
    line
}

/// The line on a category.
pub open spec fn category_line(
    label: Seq<char>,
    summary: CategorySummary,
    average: Seq<char>,
) -> Seq<char> {
    label + " · "@ + decimal(summary.functions as nat) + " callables · total burden "@ + points(
        summary.total_score as nat,
    ) + " · average "@ + average + " · p95 "@ + points(summary.p95_score as nat) + " · highest "@
        + points(summary.highest_score as nat) + "\n"@
}

fn render_category_summary(label: &str, summary: &CategorySummary, average: &str) -> (line: String)
    ensures
        line@ == category_line(label@, *summary, average@),
{
    let mut line = label.to_owned();
    line.append(" · ");
    push_decimal(&mut line, summary.functions);
    line.append(" callables · total burden ");
    push_points(&mut line, summary.total_score);
    line.append(" · average ");
    line.append(average);
    line.append(" · p95 ");
    push_points(&mut line, summary.p95_score);
    line.append(" · highest ");
    push_points(&mut line, summary.highest_score);
    line.append("\n");
    line
}

/// The lines above the rankings, up to the files.
pub open spec fn head_lines(
    report: Report,
    production_average: Seq<char>,
    test_average: Seq<char>,
) -> Seq<char> {
    let counts = effective_counts(report);
    "Kompass "@ + report.version@ + " · "@ + header_language(counts)
        + " structural complexity · "@ + report.model@ + "\n"@ + report.root@ + "\n"@ + decimal(
        report.summary.files as nat,
    ) + " files · "@ + decimal(report.summary.code_lines as nat) + " code lines · "@ + decimal(
        report.summary.tokens as nat,
    ) + " tokens\n"@ + language_line(counts) + category_line(
        "Production"@,
        report.summary.production,
        production_average,
    ) + category_line("Tests"@, report.summary.test, test_average) + "Repository burden · "@
        + points(report.summary.burden.total as nat) + " total · "@ + points(
        report.summary.burden.production as nat,
    ) + " production · "@ + points(report.summary.burden.test as nat) + " tests\n"@
        + "Macro opacity · "@ + decimal(report.macro_opacity.invocations as nat)
        + " source invocations · "@ + decimal(report.macro_opacity.source_tokens as nat)
        + " invocation source tokens · "@ + decimal(report.macro_opacity.definitions as nat)
        + " definitions · "@ + decimal(report.macro_opacity.definition_tokens as nat)
        + " definition tokens · unexpanded and excluded from score\n"@
}

fn render_head(report: &Report, production_average: &str, test_average: &str) -> (lines: String)
    ensures
        lines@ == head_lines(*report, production_average@, test_average@),
{
    let counts = effective_language_counts(report);
    let mut lines = "Kompass ".to_owned();
    lines.append(report.version.as_str());
    lines.append(" · ");
    lines.append(language_header(&counts));
    lines.append(" structural complexity · ");
    lines.append(report.model.as_str());
    lines.append("\n");
    lines.append(report.root.as_str());
    lines.append("\n");
    push_decimal(&mut lines, report.summary.files);
    lines.append(" files · ");
    push_decimal(&mut lines, report.summary.code_lines);
    lines.append(" code lines · ");
    push_decimal(&mut lines, report.summary.tokens);
    lines.append(" tokens\n");
    lines.append(render_languages(&counts).as_str());
    lines.append(
        render_category_summary(
            "Production",
            &report.summary.production,
            production_average,
        ).as_str(),
    );
    lines.append(
        render_category_summary("Tests", &report.summary.test, test_average).as_str(),
    );
    lines.append("Repository burden · ");
    push_points(&mut lines, report.summary.burden.total);
    lines.append(" total · ");
    push_points(&mut lines, report.summary.burden.production);
    lines.append(" production · ");
    push_points(&mut lines, report.summary.burden.test);
    lines.append(" tests\n");
    lines.append("Macro opacity · ");
    push_decimal(&mut lines, report.macro_opacity.invocations);
    lines.append(" source invocations · ");
    push_decimal(&mut lines, report.macro_opacity.source_tokens);
    lines.append(" invocation source tokens · ");
    push_decimal(&mut lines, report.macro_opacity.definitions);
    lines.append(" definitions · ");
    push_decimal(&mut lines, report.macro_opacity.definition_tokens);
    lines.append(" definition tokens · unexpanded and excluded from score\n");
    lines
}

/// Whether a file may stand before another: the larger burden first, then by
/// path.
pub open spec fn burden_precedes() -> spec_fn(FileReport, FileReport) -> bool {
    |left: FileReport, right: FileReport|
        chained(
            number_relation(right.burden.total as int, left.burden.total as int),
            text_relation(left.path@, right.path@),
        ) != Relation::After
}

fn burden_in_order(left: &&FileReport, right: &&FileReport) -> (answer: bool)
    ensures
        answer == burden_precedes()(**left, **right),
{
    match compare_numbers(right.burden.total, left.burden.total) {
        Relation::Same => compare_text(left.path.as_str(), right.path.as_str()) != Relation::After,
        decided => decided != Relation::After,
    }
}

/// The highest score of the first `count` callables, or zero.
pub open spec fn highest_callable(functions: Seq<FunctionReport>, count: nat) -> usize
    decreases count,
{
    if count == 0 {
        0
    } else {
        let earlier = highest_callable(functions, (count - 1) as nat);
        if functions[count - 1].score.value > earlier {
            functions[count - 1].score.value
        } else {
            earlier
        }
    }
}

/// The line on a file.
pub open spec fn file_line(file: FileReport) -> Seq<char> {
    "  "@ + padded(points(file.burden.total as nat), 5) + "  "@ + decimal(file.functions@.len())
        + " callables · highest "@ + points(
        highest_callable(file.functions@, file.functions@.len()) as nat,
    ) + " · "@ + points(file.burden.production as nat) + " production · "@ + points(
        file.burden.test as nat,
    ) + " tests · "@ + file.language.label_text() + " · "@ + file.path@ + "\n"@
}

fn render_file(file: &FileReport) -> (line: String)
    ensures
        line@ == file_line(*file),
{
    let mut highest: usize = 0;
    let mut index: usize = 0;
    while index < file.functions.len()
        invariant
            index <= file.functions@.len(),
            highest == highest_callable(file.functions@, index as nat),
        decreases file.functions@.len() - index,
    {
        if file.functions[index].score.value > highest {
            highest = file.functions[index].score.value;
        }
        index += 1;
    }
    let mut line = "  ".to_owned();
    push_padded(&mut line, format_score(file.burden.total).as_str(), 5);
    line.append("  ");
    push_decimal(&mut line, file.functions.len());
    line.append(" callables · highest ");
    push_points(&mut line, highest);
    line.append(" · ");
    push_points(&mut line, file.burden.production);
    line.append(" production · ");
    push_points(&mut line, file.burden.test);
    line.append(" tests · ");
    line.append(file.language.label());
    line.append(" · ");
    line.append(file.path.as_str());
    line.append("\n");
    line
}

/// The lines on the first `count` files.
pub open spec fn file_lines(files: Seq<FileReport>, count: nat) -> Seq<char>
    decreases count,
{
    if count == 0 {
        Seq::empty()
    } else {
        file_lines(files, (count - 1) as nat) + file_line(files[count - 1])
    }
}

/// The part on files, the largest burden first.
pub open spec fn files_part(files: Seq<FileReport>, top: usize) -> Seq<char> {
    if top == 0 || files.len() == 0 {
        Seq::empty()
    } else {
        "\nFiles by burden · top "@ + decimal(top as nat) + "\n"@ + file_lines(
            sorted(files, burden_precedes()),
            if top < files.len() {
                top as nat
            } else {
                files.len()
            },
        )
    }
}

fn render_file_burdens(files: &Vec<FileReport>, top: usize) -> (part: String)
    ensures
        part@ == files_part(files@, top),
{
    if top == 0 || files.is_empty() {
        let empty = String::new();
        assert(empty@ =~= files_part(files@, top));
        return empty;
    }
    let listed = sort_references(files, burden_in_order, Ghost(burden_precedes()));
    let ghost values = referents(listed@);
    proof {
        crate::order::sorted_length(files@, burden_precedes());
        assert(values.len() == listed@.len());
    }
    let mut lines = String::new();
    let mut index: usize = 0;
    while index < listed.len() && index < top
        invariant
            index <= listed@.len(),
            index <= top,
            values == referents(listed@),
            lines@ == file_lines(values, index as nat),
        decreases listed@.len() - index,
    {
        assert(values[index as int] == *listed@[index as int]);
        lines.append(render_file(listed[index]).as_str());
        index += 1;
    }
    let mut part = "\nFiles by burden · top ".to_owned();
    push_decimal(&mut part, top);
    part.append("\n");
    part.append(lines.as_str());
    part
}

/// The lines on coverage.
pub open spec fn coverage_lines(report: Report) -> Seq<char> {
    (if report.coverage.complete {
        "Coverage complete · "@
    } else {
        "Coverage partial · "@
    }) + decimal(report.coverage.analyzed_files as nat) + " of "@ + decimal(
        report.coverage.discovered_files as nat,
    ) + " files analyzed\n"@ + (if report.coverage.test_files > 0 {
        "Test files · "@ + decimal(report.coverage.test_files as nat) + " source files\n"@
    } else {
        Seq::empty()
    })
}

fn render_coverage(report: &Report) -> (lines: String)
    ensures
        lines@ == coverage_lines(*report),
{
    let mut tests = String::new();
    if report.coverage.test_files > 0 {
        tests = "Test files · ".to_owned();
        push_decimal(&mut tests, report.coverage.test_files);
        tests.append(" source files\n");
    }
    let mut lines = if report.coverage.complete {
        "Coverage complete · ".to_owned()
    } else {
        "Coverage partial · ".to_owned()
    };
    push_decimal(&mut lines, report.coverage.analyzed_files);
    lines.append(" of ");
    push_decimal(&mut lines, report.coverage.discovered_files);
    lines.append(" files analyzed\n");
    lines.append(tests.as_str());
    assert(tests@ =~= if report.coverage.test_files > 0 {
        "Test files · "@ + decimal(report.coverage.test_files as nat) + " source files\n"@
    } else {
        Seq::empty()
    });
    lines
}

/// A category as a ranking names it.
pub open spec fn category_text(category: Category) -> Seq<char> {
    match category {
        Category::Production => "production"@,
        Category::Test => "test"@,
    }
}

fn category_label(category: Category) -> (label: &'static str)
    ensures
        label@ == category_text(category),
{
    match category {
        Category::Production => "production",
        Category::Test => "test",
    }
}

/// The heading of a ranking.
pub open spec fn heading(category: Category, sort: SortBy) -> Seq<char> {
    if sort == SortBy::Score {
        "Most complex "@ + category_text(category) + " callables · sorted by "@ + sort.label_text()
    } else {
        category_text(category) + " callables · sorted by "@ + sort.label_text()
    }
}

fn ranking_heading(category: Category, sort: SortBy) -> (text: String)
    ensures
        text@ == heading(category, sort),
{
    if sort == SortBy::Score {
        let mut text = "Most complex ".to_owned();
        text.append(category_label(category));
        text.append(" callables · sorted by ");
        text.append(sort.label());
        text
    } else {
        let mut text = category_label(category).to_owned();
        text.append(" callables · sorted by ");
        text.append(sort.label());
        text
    }
}

/// The lines on a callable.
pub open spec fn function_lines(item: RankedView) -> Seq<char> {
    let function = item.function;
    "  "@ + padded(points(function.score.value as nat), 5) + "  "@ + item.file.path@ + ":"@ + decimal(
        function.location.start.line as nat,
    ) + ":"@ + decimal(function.location.start.column as nat) + "  "@ + function.name@
        + "\n       "@ + decimal(function.lines as nat) + " lines · "@ + decimal(
        function.metrics.code_lines as nat,
    ) + " code lines · "@ + decimal(function.tokens as nat) + " Tokens · "@ + decimal(
        function.metrics.decisions as nat,
    ) + " decisions · max depth "@ + decimal(function.metrics.max_depth as nat) + " · "@ + decimal(
        function.metrics.nesting_penalty as nat,
    ) + " nesting penalty · "@ + decimal(function.metrics.statements as nat) + " statements · "@
        + decimal(function.metrics.macro_calls as nat) + " macro calls\n       score: "@ + points(
        function.score.value as nat,
    ) + " = "@ + points(function.score.boundary as nat) + " boundary + "@ + points(
        clipped((function.score.control_decisions * 10) as nat) as nat,
    ) + " control decisions + "@ + points(
        clipped((function.score.nesting_penalty * 10) as nat) as nat,
    ) + " nesting + "@ + points(function.score.boolean_operator_units as nat)
        + " boolean operators + "@ + points(function.score.expression_operation_units as nat)
        + " expression operations + "@ + points(function.score.call_site_units as nat)
        + " call sites + "@ + points(function.score.parameter_units as nat)
        + " explicit parameters + "@ + points(function.score.match_arm_units as nat)
        + " match arms\n"@
}

fn render_function(item: &RankedFunction) -> (lines: String)
    ensures
        lines@ == function_lines(item@),
{
    let function = item.function;
    let mut lines = "  ".to_owned();
    push_padded(&mut lines, format_score(function.score.value).as_str(), 5);
    lines.append("  ");
    lines.append(item.file.path.as_str());
    lines.append(":");
    push_decimal(&mut lines, function.location.start.line);
    lines.append(":");
    push_decimal(&mut lines, function.location.start.column);
    lines.append("  ");
    lines.append(function.name.as_str());
    lines.append("\n       ");
    push_decimal(&mut lines, function.lines);
    lines.append(" lines · ");
    push_decimal(&mut lines, function.metrics.code_lines);
    lines.append(" code lines · ");
    push_decimal(&mut lines, function.tokens);
    lines.append(" Tokens · ");
    push_decimal(&mut lines, function.metrics.decisions);
    lines.append(" decisions · max depth ");
    push_decimal(&mut lines, function.metrics.max_depth);
    lines.append(" · ");
    push_decimal(&mut lines, function.metrics.nesting_penalty);
    lines.append(" nesting penalty · ");
    push_decimal(&mut lines, function.metrics.statements);
    lines.append(" statements · ");
    push_decimal(&mut lines, function.metrics.macro_calls);
    lines.append(" macro calls\n       score: ");
    push_points(&mut lines, function.score.value);
    lines.append(" = ");
    push_points(&mut lines, function.score.boundary);
    lines.append(" boundary + ");
    push_points(&mut lines, multiplied(function.score.control_decisions, 10));
    lines.append(" control decisions + ");
    push_points(&mut lines, multiplied(function.score.nesting_penalty, 10));
    lines.append(" nesting + ");
    push_points(&mut lines, function.score.boolean_operator_units);
    lines.append(" boolean operators + ");
    push_points(&mut lines, function.score.expression_operation_units);
    lines.append(" expression operations + ");
    push_points(&mut lines, function.score.call_site_units);
    lines.append(" call sites + ");
    push_points(&mut lines, function.score.parameter_units);
    lines.append(" explicit parameters + ");
    push_points(&mut lines, function.score.match_arm_units);
    lines.append(" match arms\n");
    lines
}

/// The lines on the first `count` ranked callables.
pub open spec fn ranked_lines(items: Seq<RankedView>, count: nat) -> Seq<char>
    decreases count,
{
    if count == 0 {
        Seq::empty()
    } else {
        ranked_lines(items, (count - 1) as nat) + function_lines(items[count - 1])
    }
}

/// The selection of one category.
pub open spec fn only(category: Category) -> Selection {
    match category {
        Category::Production => Selection { production: true, test: false },
        Category::Test => Selection { production: false, test: true },
    }
}

/// The ranking of a category, where there is anything to show.
pub open spec fn ranking_part(
    report: Report,
    category: Category,
    sort: SortBy,
    top: usize,
) -> Seq<char> {
    let items = ranked(report.files@, only(category), sort);
    if items.len() == 0 || top == 0 {
        Seq::empty()
    } else {
        "\n"@ + heading(category, sort) + "\n"@ + ranked_lines(
            items,
            if top < items.len() {
                top as nat
            } else {
                items.len()
            },
        )
    }
}

fn render_ranking(report: &Report, category: Category, sort: SortBy, top: usize) -> (result: (
    String,
    bool,
))
    ensures
        result.0@ == ranking_part(*report, category, sort, top),
        result.1 == (ranked(report.files@, only(category), sort).len() > 0),
{
    let chosen = match category {
        Category::Production => Selection { production: true, test: false },
        Category::Test => Selection { production: false, test: true },
    };
    let items = rank_functions(&report.files, chosen, sort);
    let ghost views = ranked_views(items@);
    assert(views.len() == items@.len());
    if items.is_empty() || top == 0 {
        let empty = String::new();
        assert(empty@ =~= ranking_part(*report, category, sort, top));
        return (empty, !items.is_empty());
    }
    let mut lines = String::new();
    let mut index: usize = 0;
    while index < items.len() && index < top
        invariant
            index <= items@.len(),
            index <= top,
            views == ranked_views(items@),
            lines@ == ranked_lines(views, index as nat),
        decreases items@.len() - index,
    {
        assert(views[index as int] == items@[index as int]@);
        lines.append(render_function(&items[index]).as_str());
        index += 1;
    }
    let mut part = "\n".to_owned();
    part.append(ranking_heading(category, sort).as_str());
    part.append("\n");
    part.append(lines.as_str());
    (part, true)
}

/// The rankings of the selected categories.
pub open spec fn rankings_part(
    report: Report,
    chosen: Selection,
    sort: SortBy,
    top: usize,
) -> Seq<char> {
    (if chosen.production {
        ranking_part(report, Category::Production, sort, top)
    } else {
        Seq::empty()
    }) + (if chosen.test {
        ranking_part(report, Category::Test, sort, top)
    } else {
        Seq::empty()
    })
}

/// Whether a selected category has a callable.
pub open spec fn any_selected(report: Report, chosen: Selection, sort: SortBy) -> bool {
    ||| chosen.production && ranked(report.files@, only(Category::Production), sort).len() > 0
    ||| chosen.test && ranked(report.files@, only(Category::Test), sort).len() > 0
}

/// What stands in place of a ranking.
pub open spec fn nothing_part(report: Report, tests: bool, all: bool, sort: SortBy) -> Seq<char> {
    if report.summary.files == 0 && report.coverage.discovered_files == 0 {
        "\nNo source files found.\n"@
    } else if !any_selected(report, selection(tests, all), sort) {
        "\nNo "@ + (if all {
            "production or test"@
        } else if tests {
            "test"@
        } else {
            "production"@
        }) + " callables found in the analyzed "@ + header_language(effective_counts(report))
            + " files.\n"@
    } else {
        Seq::empty()
    }
}

/// The name of a kind of error.
pub open spec fn error_kind_text(kind: ErrorKind) -> Seq<char> {
    match kind {
        ErrorKind::Read => "read"@,
        ErrorKind::Parse => "parse"@,
        ErrorKind::Lex => "lex"@,
    }
}

fn error_kind_name(kind: ErrorKind) -> (name: &'static str)
    ensures
        name@ == error_kind_text(kind),
{
    match kind {
        ErrorKind::Read => "read",
        ErrorKind::Parse => "parse",
        ErrorKind::Lex => "lex",
    }
}

/// The lines on the first `count` errors.
pub open spec fn error_lines(errors: Seq<AnalysisError>, count: nat) -> Seq<char>
    decreases count,
{
    if count == 0 {
        Seq::empty()
    } else {
        let error = errors[count - 1];
        error_lines(errors, (count - 1) as nat) + "  "@ + (match error.path {
            Some(path) => path@,
            None => "input"@,
        }) + " ["@ + error_kind_text(error.kind) + "] "@ + error.message@ + "\n"@
    }
}

/// The part on errors, where there are any.
pub open spec fn errors_part(errors: Seq<AnalysisError>) -> Seq<char> {
    if errors.len() == 0 {
        Seq::empty()
    } else {
        "\nAnalysis errors\n"@ + error_lines(errors, errors.len())
    }
}

fn render_errors(errors: &Vec<AnalysisError>) -> (part: String)
    ensures
        part@ == errors_part(errors@),
{
    if errors.is_empty() {
        let empty = String::new();
        assert(empty@ =~= errors_part(errors@));
        return empty;
    }
    let mut lines = String::new();
    let mut index: usize = 0;
    while index < errors.len()
        invariant
            index <= errors@.len(),
            lines@ == error_lines(errors@, index as nat),
        decreases errors@.len() - index,
    {
        let error = &errors[index];
        lines.append("  ");
        match &error.path {
            Some(path) => lines.append(path.as_str()),
            None => lines.append("input"),
        }
        lines.append(" [");
        lines.append(error_kind_name(error.kind));
        lines.append("] ");
        lines.append(error.message.as_str());
        lines.append("\n");
        index += 1;
    }
    let mut part = "\nAnalysis errors\n".to_owned();
    part.append(lines.as_str());
    part
}

/// The whole report as text.
pub open spec fn report_text(
    report: Report,
    top: usize,
    tests: bool,
    all: bool,
    sort: SortBy,
    production_average: Seq<char>,
    test_average: Seq<char>,
) -> Seq<char> {
    head_lines(report, production_average, test_average) + files_part(report.files@, top)
        + coverage_lines(report) + rankings_part(report, selection(tests, all), sort, top)
        + nothing_part(report, tests, all, sort) + errors_part(report.errors@)
}

/// A report for a terminal. Averages are not whole numbers of score units, so
/// they come as texts.
pub fn render_text(
    report: &Report,
    top: usize,
    tests: bool,
    all: bool,
    sort: SortBy,
    production_average: &str,
    test_average: &str,
) -> (text: String)
    ensures
        text@ == report_text(
            *report,
            top,
            tests,
            all,
            sort,
            production_average@,
            test_average@,
        ),
{
    let chosen = select(tests, all);
    let mut rankings = String::new();
    let mut any: bool = false;
    if chosen.production {
        let (part, found) = render_ranking(report, Category::Production, sort, top);
        rankings = part;
        any = found;
    }
    if chosen.test {
        let (part, found) = render_ranking(report, Category::Test, sort, top);
        rankings.append(part.as_str());
        any = any || found;
    }
    assert(rankings@ =~= rankings_part(*report, chosen, sort, top));
    let mut nothing = String::new();
    if report.summary.files == 0 && report.coverage.discovered_files == 0 {
        nothing = "\nNo source files found.\n".to_owned();
    } else if !any {
        nothing = "\nNo ".to_owned();
        nothing.append(
            if all {
                "production or test"
            } else if tests {
                "test"
            } else {
                "production"
            },
        );
        nothing.append(" callables found in the analyzed ");
        nothing.append(language_header(&effective_language_counts(report)));
        nothing.append(" files.\n");
    }
    assert(nothing@ =~= nothing_part(*report, tests, all, sort));
    let mut text = render_head(report, production_average, test_average);
    text.append(render_file_burdens(&report.files, top).as_str());
    text.append(render_coverage(report).as_str());
    text.append(rankings.as_str());
    text.append(nothing.as_str());
    text.append(render_errors(&report.errors).as_str());
    text
}

/// A span as `line:column-line:column`.
pub open spec fn location_text(location: Location) -> Seq<char> {
    decimal(location.start.line as nat) + ":"@ + decimal(location.start.column as nat) + "-"@
        + decimal(location.end.line as nat) + ":"@ + decimal(location.end.column as nat)
}

fn show_location(location: &Location) -> (text: String)
    ensures
        text@ == location_text(*location),
{
    let mut text = String::new();
    push_decimal(&mut text, location.start.line);
    assert(text@ =~= decimal(location.start.line as nat));
    text.append(":");
    push_decimal(&mut text, location.start.column);
    text.append("-");
    push_decimal(&mut text, location.end.line);
    text.append(":");
    push_decimal(&mut text, location.end.column);
    text
}

/// The first `count` spans, each behind a space.
pub open spec fn location_texts(locations: Seq<Location>, count: nat) -> Seq<char>
    decreases count,
{
    if count == 0 {
        Seq::empty()
    } else {
        location_texts(locations, (count - 1) as nat) + " "@ + location_text(locations[count - 1])
    }
}

/// The lines on the first `count` components.
pub open spec fn explained_component_lines(components: Seq<ExplainComponent>, count: nat) -> Seq<
    char,
>
    decreases count,
{
    if count == 0 {
        Seq::empty()
    } else {
        let component = components[count - 1];
        explained_component_lines(components, (count - 1) as nat) + "       "@ + padded(
            points(component.units as nat),
            5,
        ) + "  "@ + component.component.label_text() + location_texts(
            component.locations@,
            component.locations@.len(),
        ) + "\n"@
    }
}

fn render_components(components: &Vec<ExplainComponent>) -> (lines: String)
    ensures
        lines@ == explained_component_lines(components@, components@.len()),
{
    let mut lines = String::new();
    let mut index: usize = 0;
    while index < components.len()
        invariant
            index <= components@.len(),
            lines@ == explained_component_lines(components@, index as nat),
        decreases components@.len() - index,
    {
        let component = &components[index];
        let mut places = String::new();
        let mut place: usize = 0;
        while place < component.locations.len()
            invariant
                place <= component.locations@.len(),
                places@ == location_texts(component.locations@, place as nat),
            decreases component.locations@.len() - place,
        {
            places.append(" ");
            places.append(show_location(&component.locations[place]).as_str());
            place += 1;
        }
        lines.append("       ");
        push_padded(&mut lines, format_score(component.units).as_str(), 5);
        lines.append("  ");
        lines.append(component.component.label());
        lines.append(places.as_str());
        lines.append("\n");
        index += 1;
    }
    lines
}

/// The lines on the first `count` explained callables.
pub open spec fn candidate_lines(candidates: Seq<ExplainCandidate>, count: nat) -> Seq<char>
    decreases count,
{
    if count == 0 {
        Seq::empty()
    } else {
        let candidate = candidates[count - 1];
        candidate_lines(candidates, (count - 1) as nat) + "\n"@ + padded(
            points(candidate.score.value as nat),
            7,
        ) + "  "@ + candidate.name@ + " · "@ + candidate.kind.serialized_text() + " · "@
            + location_text(candidate.location) + (if candidate.innermost {
            " · innermost\n"@
        } else {
            "\n"@
        }) + explained_component_lines(candidate.components@, candidate.components@.len())
    }
}

/// An explanation as text.
pub open spec fn explanation_text(explanation: ExplainReport) -> Seq<char> {
    "Kompass explain · "@ + explanation.scope.path@ + ":"@ + decimal(
        explanation.scope.line as nat,
    ) + " · "@ + decimal(explanation.total as nat) + " callables\n"@ + candidate_lines(
        explanation.candidates@,
        explanation.candidates@.len(),
    ) + errors_part(explanation.errors@)
}

/// An explanation for a terminal.
pub fn render_explain_text(explanation: &ExplainReport) -> (text: String)
    ensures
        text@ == explanation_text(*explanation),
{
    let mut lines = String::new();
    let mut index: usize = 0;
    while index < explanation.candidates.len()
        invariant
            index <= explanation.candidates@.len(),
            lines@ == candidate_lines(explanation.candidates@, index as nat),
        decreases explanation.candidates@.len() - index,
    {
        let candidate = &explanation.candidates[index];
        lines.append("\n");
        push_padded(&mut lines, format_score(candidate.score.value).as_str(), 7);
        lines.append("  ");
        lines.append(candidate.name.as_str());
        lines.append(" · ");
        lines.append(candidate.kind.serialized());
        lines.append(" · ");
        lines.append(show_location(&candidate.location).as_str());
        lines.append(
            if candidate.innermost {
                " · innermost\n"
            } else {
                "\n"
            },
        );
        lines.append(render_components(&candidate.components).as_str());
        index += 1;
    }
    let mut text = "Kompass explain · ".to_owned();
    text.append(explanation.scope.path.as_str());
    text.append(":");
    push_decimal(&mut text, explanation.scope.line);
    text.append(" · ");
    push_decimal(&mut text, explanation.total);
    text.append(" callables\n");
    text.append(lines.as_str());
    text.append(render_errors(&explanation.errors).as_str());
    text
}

}
