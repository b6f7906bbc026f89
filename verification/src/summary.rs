//! What the files of a report add up to.
use vstd::prelude::*;
use crate::model::{
    Burden, Category, CategorySummary, FileReport, FunctionReport, Language, LanguageCounts,
    LanguageSummaries, LanguageSummary, MacroOpacity, Summary,
};
use crate::stats::{highest_score, highest_upto, p95_score, percentile};
use crate::sums::{clipped, total, total_insert, total_push};

verus! {

/// Whether a file is of a language, where one is asked for.
pub open spec fn file_counts(file: FileReport, language: Option<Language>) -> bool {
    match language {
        Some(wanted) => file.language == wanted,
        None => true,
    }
}

/// How many of the first `count` files count.
pub open spec fn file_total(files: Seq<FileReport>, language: Option<Language>, count: nat) -> nat
    decreases count,
{
    if count == 0 {
        0
    } else {
        file_total(files, language, (count - 1) as nat) + if file_counts(
            files[count - 1],
            language,
        ) {
            1nat
        } else {
            0nat
        }
    }
}

/// The code lines of the first `count` files.
pub open spec fn line_total(files: Seq<FileReport>, language: Option<Language>, count: nat) -> nat
    decreases count,
{
    if count == 0 {
        0
    } else {
        line_total(files, language, (count - 1) as nat) + if file_counts(
            files[count - 1],
            language,
        ) {
            files[count - 1].lines.code as nat
        } else {
            0
        }
    }
}

/// The tokens of the first `count` files.
pub open spec fn token_total(files: Seq<FileReport>, language: Option<Language>, count: nat) -> nat
    decreases count,
{
    if count == 0 {
        0
    } else {
        token_total(files, language, (count - 1) as nat) + if file_counts(
            files[count - 1],
            language,
        ) {
            files[count - 1].tokens as nat
        } else {
            0
        }
    }
}

/// The scores of a category among the first `count` callables.
pub open spec fn function_scores(
    functions: Seq<FunctionReport>,
    category: Category,
    count: nat,
) -> Seq<usize>
    decreases count,
{
    if count == 0 {
        Seq::empty()
    } else {
        let earlier = function_scores(functions, category, (count - 1) as nat);
        if functions[count - 1].category == category {
            earlier.push(functions[count - 1].score.value)
        } else {
            earlier
        }
    }
}

/// The scores of a category in the first `count` files.
pub open spec fn file_scores(
    files: Seq<FileReport>,
    language: Option<Language>,
    category: Category,
    count: nat,
) -> Seq<usize>
    decreases count,
{
    if count == 0 {
        Seq::empty()
    } else {
        let earlier = file_scores(files, language, category, (count - 1) as nat);
        let file = files[count - 1];
        if file_counts(file, language) {
            earlier + function_scores(file.functions@, category, file.functions@.len())
        } else {
            earlier
        }
    }
}

/// The first `count` numbers, added up.
pub open spec fn number_total(numbers: Seq<usize>, count: nat) -> nat
    decreases count,
{
    if count == 0 {
        0
    } else {
        number_total(numbers, (count - 1) as nat) + numbers[count - 1] as nat
    }
}

/// Whether a category is summed up.
pub open spec fn sums_up(summary: CategorySummary, scores: Seq<usize>) -> bool {
    &&& summary.functions == scores.len()
    &&& summary.total_score == number_total(scores, scores.len())
    &&& summary.p95_score == percentile(scores)
    &&& summary.highest_score == highest_upto(scores, scores.len())
}

/// The burden of scores that add up to these totals.
pub open spec fn burden_of(production: nat, test: nat) -> Burden {
    Burden {
        production: clipped(production),
        test: clipped(test),
        total: clipped(clipped(production) as nat + clipped(test) as nat),
    }
}

/// Whether a summary is that of the files of a language.
pub open spec fn summarizes_language(
    summary: LanguageSummary,
    files: Seq<FileReport>,
    language: Option<Language>,
) -> bool {
    let production = file_scores(files, language, Category::Production, files.len());
    let test = file_scores(files, language, Category::Test, files.len());
    &&& summary.files == file_total(files, language, files.len())
    &&& summary.code_lines == line_total(files, language, files.len())
    &&& summary.tokens == token_total(files, language, files.len())
    &&& sums_up(summary.production, production)
    &&& sums_up(summary.test, test)
    &&& summary.burden == burden_of(
        number_total(production, production.len()),
        number_total(test, test.len()),
    )
}

/// Whether a summary is that of files.
pub open spec fn summarizes(summary: Summary, files: Seq<FileReport>) -> bool {
    &&& summarizes_language(
        LanguageSummary {
            files: summary.files,
            code_lines: summary.code_lines,
            tokens: summary.tokens,
            production: summary.production,
            test: summary.test,
            burden: summary.burden,
        },
        files,
        None,
    )
    &&& summary.languages.rust == file_total(files, Some(Language::Rust), files.len())
    &&& summary.languages.python == file_total(files, Some(Language::Python), files.len())
    &&& summary.languages.javascript == file_total(
        files,
        Some(Language::JavaScript),
        files.len(),
    )
    &&& summary.languages.typescript == file_total(
        files,
        Some(Language::TypeScript),
        files.len(),
    )
    &&& summarizes_language(summary.by_language.rust, files, Some(Language::Rust))
    &&& summarizes_language(summary.by_language.python, files, Some(Language::Python))
    &&& summarizes_language(summary.by_language.javascript, files, Some(Language::JavaScript))
    &&& summarizes_language(summary.by_language.typescript, files, Some(Language::TypeScript))
}

/// The scores of the first `count` callables, added up.
pub open spec fn score_total(functions: Seq<FunctionReport>, count: nat) -> nat
    decreases count,
{
    if count == 0 {
        0
    } else {
        score_total(functions, (count - 1) as nat) + functions[count - 1].score.value as nat
    }
}

/// The scores of all callables of the first `count` files, added up.
pub open spec fn files_score_total(files: Seq<FileReport>, count: nat) -> nat
    decreases count,
{
    if count == 0 {
        0
    } else {
        files_score_total(files, (count - 1) as nat) + score_total(
            files[count - 1].functions@,
            files[count - 1].functions@.len(),
        )
    }
}

/// Whether lines, tokens and scores, each added up, fit into a machine word.
pub open spec fn totals_fit(files: Seq<FileReport>) -> bool {
    &&& line_total(files, None, files.len()) <= usize::MAX
    &&& token_total(files, None, files.len()) <= usize::MAX
    &&& files_score_total(files, files.len()) <= usize::MAX
}

proof fn lemma_number_total_concat(left: Seq<usize>, right: Seq<usize>, count: nat)
    requires
        count <= right.len(),
    ensures
        number_total(left + right, left.len() + count) == number_total(left, left.len())
            + number_total(right, count),
    decreases count,
{
    if count == 0 {
        lemma_number_total_prefix(left + right, left, left.len());
    } else {
        lemma_number_total_concat(left, right, (count - 1) as nat);
        assert((left + right)[left.len() + count - 1] == right[count - 1]);
    }
}

proof fn lemma_number_total_prefix(longer: Seq<usize>, shorter: Seq<usize>, count: nat)
    requires
        count <= shorter.len(),
        count <= longer.len(),
        forall|index: int| 0 <= index < count ==> longer[index] == shorter[index],
    ensures
        number_total(longer, count) == number_total(shorter, count),
    decreases count,
{
    if count > 0 {
        lemma_number_total_prefix(longer, shorter, (count - 1) as nat);
    }
}

proof fn lemma_function_scores(functions: Seq<FunctionReport>, count: nat)
    requires
        count <= functions.len(),
    ensures
        ({
            let production = function_scores(functions, Category::Production, count);
            let test = function_scores(functions, Category::Test, count);
            number_total(production, production.len()) + number_total(test, test.len())
                == score_total(functions, count)
        }),
    decreases count,
{
    if count > 0 {
        lemma_function_scores(functions, (count - 1) as nat);
        let production = function_scores(functions, Category::Production, (count - 1) as nat);
        let test = function_scores(functions, Category::Test, (count - 1) as nat);
        let value = functions[count - 1].score.value;
        lemma_number_total_prefix(production.push(value), production, production.len());
        lemma_number_total_prefix(test.push(value), test, test.len());
    }
}

proof fn lemma_file_scores(files: Seq<FileReport>, language: Option<Language>, count: nat)
    requires
        count <= files.len(),
    ensures
        ({
            let production = file_scores(files, language, Category::Production, count);
            let test = file_scores(files, language, Category::Test, count);
            &&& number_total(production, production.len()) + number_total(test, test.len())
                <= files_score_total(files, count)
            &&& language is None ==> number_total(production, production.len()) + number_total(
                test,
                test.len(),
            ) == files_score_total(files, count)
        }),
        line_total(files, language, count) <= line_total(files, None, count),
        token_total(files, language, count) <= token_total(files, None, count),
    decreases count,
{
    if count > 0 {
        lemma_file_scores(files, language, (count - 1) as nat);
        let functions = files[count - 1].functions@;
        lemma_function_scores(functions, functions.len());
        let production = file_scores(files, language, Category::Production, (count - 1) as nat);
        let test = file_scores(files, language, Category::Test, (count - 1) as nat);
        let own_production = function_scores(functions, Category::Production, functions.len());
        let own_test = function_scores(functions, Category::Test, functions.len());
        lemma_number_total_concat(production, own_production, own_production.len());
        lemma_number_total_concat(test, own_test, own_test.len());
    }
}

proof fn lemma_line_total_grows(files: Seq<FileReport>, language: Option<Language>, fewer: nat, more: nat)
    requires
        fewer <= more <= files.len(),
    ensures
        line_total(files, language, fewer) <= line_total(files, language, more),
        token_total(files, language, fewer) <= token_total(files, language, more),
    decreases more,
{
    if fewer < more {
        lemma_line_total_grows(files, language, fewer, (more - 1) as nat);
    }
}

proof fn lemma_number_total_grows(numbers: Seq<usize>, fewer: nat, more: nat)
    requires
        fewer <= more <= numbers.len(),
    ensures
        number_total(numbers, fewer) <= number_total(numbers, more),
    decreases more,
{
    if fewer < more {
        lemma_number_total_grows(numbers, fewer, (more - 1) as nat);
    }
}

fn summarize_category(scores: &Vec<usize>) -> (summary: CategorySummary)
    requires
        number_total(scores@, scores@.len()) <= usize::MAX,
    ensures
        sums_up(summary, scores@),
{
    let mut total_score: usize = 0;
    let mut index: usize = 0;
    while index < scores.len()
        invariant
            index <= scores@.len(),
            number_total(scores@, scores@.len()) <= usize::MAX,
            total_score == number_total(scores@, index as nat),
        decreases scores@.len() - index,
    {
        proof {
            lemma_number_total_grows(scores@, (index + 1) as nat, scores@.len());
        }
        total_score = total_score + scores[index];
        index += 1;
    }
    CategorySummary {
        functions: scores.len(),
        total_score,
        p95_score: p95_score(scores),
        highest_score: highest_score(scores),
    }
}

fn collect_scores(
    files: &Vec<FileReport>,
    language: Option<Language>,
    category: Category,
) -> (scores: Vec<usize>)
    ensures
        scores@ == file_scores(files@, language, category, files@.len()),
{
    let mut scores: Vec<usize> = Vec::new();
    let mut file_index: usize = 0;
    while file_index < files.len()
        invariant
            file_index <= files@.len(),
            scores@ == file_scores(files@, language, category, file_index as nat),
        decreases files@.len() - file_index,
    {
        let file = &files[file_index];
        let counted: bool = match language {
            Some(wanted) => file.language == wanted,
            None => true,
        };
        if counted {
            let ghost earlier = scores@;
            let mut index: usize = 0;
            assert(scores@ =~= earlier + function_scores(file.functions@, category, 0));
            while index < file.functions.len()
                invariant
                    index <= file.functions@.len(),
                    scores@ == earlier + function_scores(
                        file.functions@,
                        category,
                        index as nat,
                    ),
                decreases file.functions@.len() - index,
            {
                let function = &file.functions[index];
                if function.category == category {
                    scores.push(function.score.value);
                    assert(scores@ =~= earlier + function_scores(
                        file.functions@,
                        category,
                        (index + 1) as nat,
                    ));
                }
                index += 1;
            }
        }
        file_index += 1;
    }
    scores
}

fn summarize_language(files: &Vec<FileReport>, language: Option<Language>) -> (summary: LanguageSummary)
    requires
        totals_fit(files@),
    ensures
        summarizes_language(summary, files@, language),
{
    proof {
        lemma_file_scores(files@, language, files@.len());
    }
    let mut number: usize = 0;
    let mut code_lines: usize = 0;
    let mut tokens: usize = 0;
    let mut index: usize = 0;
    while index < files.len()
        invariant
            index <= files@.len(),
            number <= index,
            number == file_total(files@, language, index as nat),
            code_lines == line_total(files@, language, index as nat),
            tokens == token_total(files@, language, index as nat),
            line_total(files@, language, files@.len()) <= usize::MAX,
            token_total(files@, language, files@.len()) <= usize::MAX,
        decreases files@.len() - index,
    {
        let file = &files[index];
        let counted: bool = match language {
            Some(wanted) => file.language == wanted,
            None => true,
        };
        proof {
            lemma_line_total_grows(files@, language, (index + 1) as nat, files@.len());
        }
        if counted {
            number += 1;
            code_lines = code_lines + file.lines.code;
            tokens = tokens + file.tokens;
        }
        index += 1;
    }
    let production_scores = collect_scores(files, language, Category::Production);
    let test_scores = collect_scores(files, language, Category::Test);
    let production = summarize_category(&production_scores);
    let test = summarize_category(&test_scores);
    LanguageSummary {
        files: number,
        code_lines,
        tokens,
        production,
        test,
        burden: Burden {
            production: production.total_score,
            test: test.total_score,
            total: production.total_score.saturating_add(test.total_score),
        },
    }
}

pub fn summarize(files: &Vec<FileReport>) -> (summary: Summary)
    requires
        totals_fit(files@),
    ensures
        summarizes(summary, files@),
{
    let all = summarize_language(files, None);
    let rust = summarize_language(files, Some(Language::Rust));
    let python = summarize_language(files, Some(Language::Python));
    let javascript = summarize_language(files, Some(Language::JavaScript));
    let typescript = summarize_language(files, Some(Language::TypeScript));
    Summary {
        files: all.files,
        code_lines: all.code_lines,
        tokens: all.tokens,
        languages: LanguageCounts {
            rust: rust.files,
            python: python.files,
            javascript: javascript.files,
            typescript: typescript.files,
        },
        by_language: LanguageSummaries { rust, python, javascript, typescript },
        production: all.production,
        test: all.test,
        burden: all.burden,
    }
}

/// Whether a burden is that of callables.
pub open spec fn bears(burden: Burden, functions: Seq<FunctionReport>) -> bool {
    let production = function_scores(functions, Category::Production, functions.len());
    let test = function_scores(functions, Category::Test, functions.len());
    burden == burden_of(
        number_total(production, production.len()),
        number_total(test, test.len()),
    )
}

pub fn summarize_burden(functions: &Vec<FunctionReport>) -> (burden: Burden)
    ensures
        bears(burden, functions@),
{
    let mut production: usize = 0;
    let mut test: usize = 0;
    let mut index: usize = 0;
    while index < functions.len()
        invariant
            index <= functions@.len(),
            ({
                let scores = function_scores(functions@, Category::Production, index as nat);
                production == clipped(number_total(scores, scores.len()))
            }),
            ({
                let scores = function_scores(functions@, Category::Test, index as nat);
                test == clipped(number_total(scores, scores.len()))
            }),
        decreases functions@.len() - index,
    {
        let value: usize = functions[index].score.value;
        let ghost production_scores = function_scores(
            functions@,
            Category::Production,
            index as nat,
        );
        let ghost test_scores = function_scores(functions@, Category::Test, index as nat);
        proof {
            lemma_number_total_prefix(
                production_scores.push(value),
                production_scores,
                production_scores.len(),
            );
            lemma_number_total_prefix(test_scores.push(value), test_scores, test_scores.len());
        }
        match functions[index].category {
            Category::Production => {
                production = production.saturating_add(value);
            },
            Category::Test => {
                test = test.saturating_add(value);
            },
        }
        index += 1;
    }
    Burden { production, test, total: production.saturating_add(test) }
}

/// One count of macros in the first `count` files, added up.
pub open spec fn macro_total(
    files: Seq<FileReport>,
    part: spec_fn(MacroOpacity) -> usize,
    count: nat,
) -> nat
    decreases count,
{
    if count == 0 {
        0
    } else {
        macro_total(files, part, (count - 1) as nat) + part(files[count - 1].macro_opacity) as nat
    }
}

/// The counts of macros in files, each within the range of its type.
pub open spec fn macro_sum(files: Seq<FileReport>) -> MacroOpacity {
    MacroOpacity {
        invocations: clipped(
            macro_total(files, |opacity: MacroOpacity| opacity.invocations, files.len()),
        ),
        source_tokens: clipped(
            macro_total(files, |opacity: MacroOpacity| opacity.source_tokens, files.len()),
        ),
        definitions: clipped(
            macro_total(files, |opacity: MacroOpacity| opacity.definitions, files.len()),
        ),
        definition_tokens: clipped(
            macro_total(files, |opacity: MacroOpacity| opacity.definition_tokens, files.len()),
        ),
    }
}

pub fn summarize_macro_opacity(files: &Vec<FileReport>) -> (opacity: MacroOpacity)
    ensures
        opacity == macro_sum(files@),
{
    let ghost invocation_part = |opacity: MacroOpacity| opacity.invocations;
    let ghost source_part = |opacity: MacroOpacity| opacity.source_tokens;
    let ghost definition_part = |opacity: MacroOpacity| opacity.definitions;
    let ghost token_part = |opacity: MacroOpacity| opacity.definition_tokens;
    let mut invocations: usize = 0;
    let mut source_tokens: usize = 0;
    let mut definitions: usize = 0;
    let mut definition_tokens: usize = 0;
    let mut index: usize = 0;
    while index < files.len()
        invariant
            index <= files@.len(),
            invocation_part == |opacity: MacroOpacity| opacity.invocations,
            source_part == |opacity: MacroOpacity| opacity.source_tokens,
            definition_part == |opacity: MacroOpacity| opacity.definitions,
            token_part == |opacity: MacroOpacity| opacity.definition_tokens,
            invocations == clipped(macro_total(files@, invocation_part, index as nat)),
            source_tokens == clipped(macro_total(files@, source_part, index as nat)),
            definitions == clipped(macro_total(files@, definition_part, index as nat)),
            definition_tokens == clipped(macro_total(files@, token_part, index as nat)),
        decreases files@.len() - index,
    {
        let own = &files[index].macro_opacity;
        invocations = invocations.saturating_add(own.invocations);
        source_tokens = source_tokens.saturating_add(own.source_tokens);
        definitions = definitions.saturating_add(own.definitions);
        definition_tokens = definition_tokens.saturating_add(own.definition_tokens);
        index += 1;
    }
    MacroOpacity { invocations, source_tokens, definitions, definition_tokens }
}

/// The burdens of the first `count` files, added up.
pub open spec fn burden_total(files: Seq<FileReport>, count: nat) -> nat
    decreases count,
{
    if count == 0 {
        0
    } else {
        burden_total(files, (count - 1) as nat) + files[count - 1].burden.total as nat
    }
}

proof fn lemma_burdens(files: Seq<FileReport>, count: nat)
    requires
        count <= files.len(),
        files_score_total(files, count) <= usize::MAX,
        forall|index: int|
            0 <= index < files.len() ==> bears(
                (#[trigger] files[index]).burden,
                files[index].functions@,
            ),
    ensures
        burden_total(files, count) == files_score_total(files, count),
    decreases count,
{
    if count > 0 {
        lemma_burdens(files, (count - 1) as nat);
        let functions = files[count - 1].functions@;
        lemma_function_scores(functions, functions.len());
        assert(bears(files[count - 1].burden, functions));
    }
}

/// The burden of the repository is the sum of the burdens of its files, and
/// that is the sum of the scores of all callables.
pub proof fn repository_burden_is_the_sum_of_its_files(summary: Summary, files: Seq<FileReport>)
    requires
        totals_fit(files),
        summarizes(summary, files),
        forall|index: int|
            0 <= index < files.len() ==> bears(
                (#[trigger] files[index]).burden,
                files[index].functions@,
            ),
    ensures
        summary.burden.total == burden_total(files, files.len()),
        summary.burden.total == files_score_total(files, files.len()),
        summary.burden.total == summary.burden.production + summary.burden.test,
{
    lemma_file_scores(files, None, files.len());
    lemma_burdens(files, files.len());
}

proof fn lemma_languages_partition(files: Seq<FileReport>, category: Category, count: nat)
    requires
        count <= files.len(),
    ensures
        ({
            let all = file_scores(files, None, category, count);
            let rust = file_scores(files, Some(Language::Rust), category, count);
            let python = file_scores(files, Some(Language::Python), category, count);
            let javascript = file_scores(files, Some(Language::JavaScript), category, count);
            let typescript = file_scores(files, Some(Language::TypeScript), category, count);
            &&& number_total(all, all.len()) == number_total(rust, rust.len()) + number_total(
                python,
                python.len(),
            ) + number_total(javascript, javascript.len()) + number_total(
                typescript,
                typescript.len(),
            )
            &&& all.len() == rust.len() + python.len() + javascript.len() + typescript.len()
        }),
        file_total(files, None, count) == file_total(files, Some(Language::Rust), count)
            + file_total(files, Some(Language::Python), count) + file_total(
            files,
            Some(Language::JavaScript),
            count,
        ) + file_total(files, Some(Language::TypeScript), count),
        token_total(files, None, count) == token_total(files, Some(Language::Rust), count)
            + token_total(files, Some(Language::Python), count) + token_total(
            files,
            Some(Language::JavaScript),
            count,
        ) + token_total(files, Some(Language::TypeScript), count),
        line_total(files, None, count) == line_total(files, Some(Language::Rust), count)
            + line_total(files, Some(Language::Python), count) + line_total(
            files,
            Some(Language::JavaScript),
            count,
        ) + line_total(files, Some(Language::TypeScript), count),
    decreases count,
{
    if count > 0 {
        lemma_languages_partition(files, category, (count - 1) as nat);
        let functions = files[count - 1].functions@;
        let own = function_scores(functions, category, functions.len());
        let shorter = (count - 1) as nat;
        lemma_number_total_concat(file_scores(files, None, category, shorter), own, own.len());
        lemma_number_total_concat(
            file_scores(files, Some(Language::Rust), category, shorter),
            own,
            own.len(),
        );
        lemma_number_total_concat(
            file_scores(files, Some(Language::Python), category, shorter),
            own,
            own.len(),
        );
        lemma_number_total_concat(
            file_scores(files, Some(Language::JavaScript), category, shorter),
            own,
            own.len(),
        );
        lemma_number_total_concat(
            file_scores(files, Some(Language::TypeScript), category, shorter),
            own,
            own.len(),
        );
    }
}

/// The aggregates by language reconcile with the totals of the repository.
pub proof fn languages_reconcile_with_totals(summary: Summary, files: Seq<FileReport>)
    requires
        summarizes(summary, files),
    ensures
        ({
            let parts = summary.by_language;
            &&& summary.files == parts.rust.files + parts.python.files + parts.javascript.files
                + parts.typescript.files
            &&& summary.code_lines == parts.rust.code_lines + parts.python.code_lines
                + parts.javascript.code_lines + parts.typescript.code_lines
            &&& summary.tokens == parts.rust.tokens + parts.python.tokens
                + parts.javascript.tokens + parts.typescript.tokens
            &&& summary.production.functions == parts.rust.production.functions
                + parts.python.production.functions + parts.javascript.production.functions
                + parts.typescript.production.functions
            &&& summary.production.total_score == parts.rust.production.total_score
                + parts.python.production.total_score + parts.javascript.production.total_score
                + parts.typescript.production.total_score
            &&& summary.test.functions == parts.rust.test.functions + parts.python.test.functions
                + parts.javascript.test.functions + parts.typescript.test.functions
            &&& summary.test.total_score == parts.rust.test.total_score
                + parts.python.test.total_score + parts.javascript.test.total_score
                + parts.typescript.test.total_score
        }),
{
    lemma_languages_partition(files, Category::Production, files.len());
    lemma_languages_partition(files, Category::Test, files.len());
}

proof fn lemma_files_score_grows(files: Seq<FileReport>, fewer: nat, more: nat)
    requires
        fewer <= more,
    ensures
        files_score_total(files, fewer) <= files_score_total(files, more),
    decreases more,
{
    if fewer < more {
        lemma_files_score_grows(files, fewer, (more - 1) as nat);
    }
}

proof fn lemma_score_grows(functions: Seq<FunctionReport>, fewer: nat, more: nat)
    requires
        fewer <= more,
    ensures
        score_total(functions, fewer) <= score_total(functions, more),
    decreases more,
{
    if fewer < more {
        lemma_score_grows(functions, fewer, (more - 1) as nat);
    }
}

/// Adds the scores of callables to a sum, where they fit.
fn add_scores(sum: usize, functions: &Vec<FunctionReport>) -> (result: Option<usize>)
    ensures
        match result {
            Some(next) => next == sum + score_total(functions@, functions@.len()),
            None => sum + score_total(functions@, functions@.len()) > usize::MAX,
        },
{
    let mut next: usize = sum;
    let mut index: usize = 0;
    while index < functions.len()
        invariant
            index <= functions@.len(),
            next == sum + score_total(functions@, index as nat),
        decreases functions@.len() - index,
    {
        next = match next.checked_add(functions[index].score.value) {
            Some(whole) => whole,
            None => {
                proof {
                    lemma_score_grows(functions@, (index + 1) as nat, functions@.len());
                }
                return None;
            },
        };
        index += 1;
    }
    Some(next)
}

/// Whether files can be summed up.
pub fn do_totals_fit(files: &Vec<FileReport>) -> (answer: bool)
    ensures
        answer == totals_fit(files@),
{
    let mut code_lines: usize = 0;
    let mut tokens: usize = 0;
    let mut scores: usize = 0;
    let mut index: usize = 0;
    while index < files.len()
        invariant
            index <= files@.len(),
            code_lines == line_total(files@, None, index as nat),
            tokens == token_total(files@, None, index as nat),
            scores == files_score_total(files@, index as nat),
        decreases files@.len() - index,
    {
        let file = &files[index];
        proof {
            lemma_line_total_grows(files@, None, (index + 1) as nat, files@.len());
            lemma_files_score_grows(files@, (index + 1) as nat, files@.len());
        }
        code_lines = match code_lines.checked_add(file.lines.code) {
            Some(next) => next,
            None => {
                return false;
            },
        };
        tokens = match tokens.checked_add(file.tokens) {
            Some(next) => next,
            None => {
                return false;
            },
        };
        scores = match add_scores(scores, &file.functions) {
            Some(next) => next,
            None => {
                return false;
            },
        };
        index += 1;
    }
    true
}

/// Numbers as natural numbers.
spec fn naturals(numbers: Seq<usize>) -> Seq<nat> {
    numbers.map_values(|number: usize| number as nat)
}

proof fn lemma_number_total(numbers: Seq<usize>, count: nat)
    requires
        count <= numbers.len(),
    ensures
        number_total(numbers, count) == total(naturals(numbers).take(count as int)),
    decreases count,
{
    let all = naturals(numbers);
    if count == 0 {
        assert(all.take(0) =~= Seq::<nat>::empty());
    } else {
        lemma_number_total(numbers, (count - 1) as nat);
        assert(all.take(count as int) =~= all.take(count - 1).push(numbers[count - 1] as nat));
        total_push(all.take(count - 1), numbers[count - 1] as nat);
    }
}

proof fn lemma_same_total(first: Seq<usize>, second: Seq<usize>)
    requires
        first.to_multiset() == second.to_multiset(),
    ensures
        total(naturals(first)) == total(naturals(second)),
        first.len() == second.len(),
    decreases first.len(),
{
    first.to_multiset_ensures();
    second.to_multiset_ensures();
    if first.len() > 0 {
        let number = first.last();
        assert(first.contains(number));
        assert(second.to_multiset().count(number) > 0);
        let place = choose|place: int| 0 <= place < second.len() && second[place] == number;
        let rest = second.remove(place);
        assert(first.remove(first.len() - 1) =~= first.drop_last());
        lemma_same_total(first.drop_last(), rest);
        assert(naturals(first).drop_last() =~= naturals(first.drop_last()));
        assert(naturals(second) =~= naturals(rest).insert(place, number as nat));
        total_insert(naturals(rest), place, number as nat);
    } else {
        assert(naturals(first) =~= naturals(second));
    }
}

/// Moving callables between files leaves the repository burden unchanged when
/// the callables and their scores are unchanged.
pub proof fn moving_callables_keeps_the_burden(
    before: Seq<FileReport>,
    after: Seq<FileReport>,
    first: Summary,
    second: Summary,
)
    requires
        summarizes(first, before),
        summarizes(second, after),
        forall|category: Category|
            #![trigger file_scores(before, None, category, before.len())]
            file_scores(before, None, category, before.len()).to_multiset() == file_scores(
                after,
                None,
                category,
                after.len(),
            ).to_multiset(),
    ensures
        first.burden == second.burden,
        first.production.functions == second.production.functions,
        first.test.functions == second.test.functions,
{
    let production = |files: Seq<FileReport>|
        file_scores(files, None, Category::Production, files.len());
    let test = |files: Seq<FileReport>| file_scores(files, None, Category::Test, files.len());
    lemma_same_total(production(before), production(after));
    lemma_same_total(test(before), test(after));
    lemma_number_total(production(before), production(before).len());
    lemma_number_total(production(after), production(after).len());
    lemma_number_total(test(before), test(before).len());
    lemma_number_total(test(after), test(after).len());
    assert forall|numbers: Seq<usize>| #[trigger]
        naturals(numbers).take(numbers.len() as int) == naturals(numbers) by {
        assert(naturals(numbers).take(numbers.len() as int) =~= naturals(numbers));
    }
}

}
