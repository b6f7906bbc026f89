//! What the summary and the ranking of a report say of its files.
use vstd::prelude::*;
use crate::model::{
    Category, CategorySummary, FileReport, FunctionReport, Language, LanguageSummary, SortBy,
    Summary,
};
use crate::order::{
    lemma_sorted_holds, order_pair, order_triple, sorted_is_ordered, text_order,
    text_order_is_total,
};
use crate::ranking::{
    file_functions, rank_precedes, ranked, report_functions, RankedView, Selection,
};
use crate::stats::{at_most, highest_is_the_greatest, percentile_bounds_95_in_100};
use crate::summary::{
    file_counts, file_scores, file_total, function_scores, line_total, number_total, summarizes,
    summarizes_language, sums_up, token_total,
};
use crate::sums::{total, total_concat, total_push};

verus! {

/// What the callables of a category come to in a file, by their scores.
pub open spec fn worth_in_file(
    file: FileReport,
    category: Category,
    worth: spec_fn(usize) -> nat,
) -> nat {
    total(
        file.functions@.map_values(
            |function: FunctionReport|
                if function.category == category {
                    worth(function.score.value)
                } else {
                    0
                },
        ),
    )
}

/// What the callables of a category come to in the files of a language, or of all
/// languages where none is asked for, by their scores.
pub open spec fn worth_in_files(
    files: Seq<FileReport>,
    language: Option<Language>,
    category: Category,
    worth: spec_fn(usize) -> nat,
) -> nat {
    total(
        files.map_values(
            |file: FileReport|
                if language is None || language == Some(file.language) {
                    worth_in_file(file, category, worth)
                } else {
                    0
                },
        ),
    )
}

/// What all files of a language come to, or those of all languages.
pub open spec fn sum_over_files(
    files: Seq<FileReport>,
    language: Option<Language>,
    worth: spec_fn(FileReport) -> nat,
) -> nat {
    total(
        files.map_values(
            |file: FileReport|
                if language is None || language == Some(file.language) {
                    worth(file)
                } else {
                    0
                },
        ),
    )
}

proof fn lemma_function_scores(
    functions: Seq<FunctionReport>,
    category: Category,
    worth: spec_fn(usize) -> nat,
    count: nat,
)
    requires
        count <= functions.len(),
    ensures
        total(function_scores(functions, category, count).map_values(worth)) == total(
            functions.take(count as int).map_values(
                |function: FunctionReport|
                    if function.category == category {
                        worth(function.score.value)
                    } else {
                        0
                    },
            ),
        ),
    decreases count,
{
    let read = |function: FunctionReport|
        if function.category == category {
            worth(function.score.value)
        } else {
            0
        };
    if count == 0 {
        assert(function_scores(functions, category, 0).map_values(worth) =~= Seq::<nat>::empty());
        assert(functions.take(0).map_values(read) =~= Seq::<nat>::empty());
    } else {
        lemma_function_scores(functions, category, worth, (count - 1) as nat);
        let earlier = function_scores(functions, category, (count - 1) as nat);
        let function = functions[count - 1];
        let fewer = functions.take(count - 1).map_values(read);
        assert(functions.take(count as int).map_values(read) =~= fewer.push(read(function)));
        total_push(fewer, read(function));
        if function.category == category {
            assert(earlier.push(function.score.value).map_values(worth) =~= earlier.map_values(
                worth,
            ).push(worth(function.score.value)));
            total_push(earlier.map_values(worth), worth(function.score.value));
        }
    }
}

proof fn lemma_file_scores(
    files: Seq<FileReport>,
    language: Option<Language>,
    category: Category,
    worth: spec_fn(usize) -> nat,
    count: nat,
)
    requires
        count <= files.len(),
    ensures
        total(file_scores(files, language, category, count).map_values(worth)) == worth_in_files(
            files.take(count as int),
            language,
            category,
            worth,
        ),
    decreases count,
{
    let read = |file: FileReport|
        if language is None || language == Some(file.language) {
            worth_in_file(file, category, worth)
        } else {
            0
        };
    if count == 0 {
        assert(file_scores(files, language, category, 0).map_values(worth)
            =~= Seq::<nat>::empty());
        assert(files.take(0).map_values(read) =~= Seq::<nat>::empty());
    } else {
        lemma_file_scores(files, language, category, worth, (count - 1) as nat);
        let earlier = file_scores(files, language, category, (count - 1) as nat);
        let file = files[count - 1];
        let fewer = files.take(count - 1).map_values(read);
        assert(files.take(count as int).map_values(read) =~= fewer.push(read(file)));
        total_push(fewer, read(file));
        let functions = file.functions@;
        lemma_function_scores(functions, category, worth, functions.len());
        assert(functions.take(functions.len() as int) =~= functions);
        let own = function_scores(functions, category, functions.len());
        assert((earlier + own).map_values(worth) =~= earlier.map_values(worth) + own.map_values(
            worth,
        ));
        total_concat(earlier.map_values(worth), own.map_values(worth));
    }
}

proof fn lemma_number_total(numbers: Seq<usize>, count: nat)
    requires
        count <= numbers.len(),
    ensures
        number_total(numbers, count) == total(
            numbers.take(count as int).map_values(|number: usize| number as nat),
        ),
    decreases count,
{
    let wide = |number: usize| number as nat;
    if count == 0 {
        assert(numbers.take(0).map_values(wide) =~= Seq::<nat>::empty());
    } else {
        lemma_number_total(numbers, (count - 1) as nat);
        let fewer = numbers.take(count - 1).map_values(wide);
        assert(numbers.take(count as int).map_values(wide) =~= fewer.push(
            wide(numbers[count - 1]),
        ));
        total_push(fewer, wide(numbers[count - 1]));
    }
}

proof fn lemma_count(numbers: Seq<usize>)
    ensures
        total(numbers.map_values(|number: usize| 1nat)) == numbers.len(),
    decreases numbers.len(),
{
    let one = |number: usize| 1nat;
    if numbers.len() > 0 {
        lemma_count(numbers.drop_last());
        assert(numbers.map_values(one) =~= numbers.drop_last().map_values(one).push(1));
        total_push(numbers.drop_last().map_values(one), 1);
    }
}

proof fn lemma_scores_held(
    files: Seq<FileReport>,
    language: Option<Language>,
    category: Category,
    count: nat,
    score: usize,
)
    requires
        count <= files.len(),
    ensures
        file_scores(files, language, category, count).contains(score) <==> exists|
            file: int,
            place: int,
        |
            0 <= file < count && listed_score(files, language, category, file, place, score),
    decreases count,
{
    if count > 0 {
        lemma_scores_held(files, language, category, (count - 1) as nat, score);
        let earlier = file_scores(files, language, category, (count - 1) as nat);
        let functions = files[count - 1].functions@;
        let own = function_scores(functions, category, functions.len());
        let all = file_scores(files, language, category, count);
        lemma_function_scores_held(functions, category, functions.len(), score);
        if earlier.contains(score) {
            let at = choose|at: int| 0 <= at < earlier.len() && earlier[at] == score;
            assert(all[at] == score);
        }
        if file_counts(files[count - 1], language) && own.contains(score) {
            let at = choose|at: int| 0 <= at < own.len() && own[at] == score;
            assert(all[earlier.len() + at] == score);
            let place = choose|place: int|
                0 <= place < functions.len() && (#[trigger] functions[place]).category == category
                    && functions[place].score.value == score;
            assert(listed_score(files, language, category, count - 1, place, score));
        }
        if all.contains(score) && !earlier.contains(score) {
            let at = choose|at: int| 0 <= at < all.len() && all[at] == score;
            if at < earlier.len() {
                assert(earlier[at] == score);
            } else {
                assert(own[at - earlier.len()] == score);
            }
        }
        if exists|file: int, place: int|
            0 <= file < count && listed_score(files, language, category, file, place, score) {
            let (file, place) = choose|file: int, place: int|
                0 <= file < count && listed_score(files, language, category, file, place, score);
            if file == count - 1 {
                assert(functions[place].category == category);
                assert(own.contains(score));
            } else {
                assert(0 <= file < count - 1 && listed_score(
                    files,
                    language,
                    category,
                    file,
                    place,
                    score,
                ));
            }
        }
    }
}

proof fn lemma_function_scores_held(
    functions: Seq<FunctionReport>,
    category: Category,
    count: nat,
    score: usize,
)
    requires
        count <= functions.len(),
    ensures
        function_scores(functions, category, count).contains(score) <==> exists|place: int|
            0 <= place < count && (#[trigger] functions[place]).category == category
                && functions[place].score.value == score,
    decreases count,
{
    if count > 0 {
        lemma_function_scores_held(functions, category, (count - 1) as nat, score);
        let earlier = function_scores(functions, category, (count - 1) as nat);
        let all = function_scores(functions, category, count);
        if earlier.contains(score) {
            let at = choose|at: int| 0 <= at < earlier.len() && earlier[at] == score;
            assert(all[at] == score);
        }
        if functions[count - 1].category == category && functions[count - 1].score.value == score {
            assert(all[all.len() - 1] == score);
        }
        if all.contains(score) && !earlier.contains(score) {
            let at = choose|at: int| 0 <= at < all.len() && all[at] == score;
            if at < earlier.len() {
                assert(earlier[at] == score);
            }
            assert(functions[count - 1].category == category);
        }
    }
}

/// Whether a callable of a category has a score, in a file of a language or of all
/// languages.
pub open spec fn listed_score(
    files: Seq<FileReport>,
    language: Option<Language>,
    category: Category,
    file: int,
    place: int,
    score: usize,
) -> bool {
    &&& 0 <= file < files.len()
    &&& language is None || language == Some(files[file].language)
    &&& 0 <= place < files[file].functions@.len()
    &&& files[file].functions@[place].category == category
    &&& files[file].functions@[place].score.value == score
}

/// Whether a category is summed up over its callables: how many there are, what
/// their scores come to, the highest, and the least that 95 in 100 do not exceed.
pub open spec fn summed_up(
    summary: CategorySummary,
    files: Seq<FileReport>,
    language: Option<Language>,
    category: Category,
) -> bool {
    let up_to = |limit: usize|
        worth_in_files(
            files,
            language,
            category,
            |score: usize|
                if score <= limit {
                    1
                } else {
                    0
                },
        );
    &&& summary.functions == worth_in_files(files, language, category, |score: usize| 1)
    &&& summary.total_score == worth_in_files(
        files,
        language,
        category,
        |score: usize| score as nat,
    )
    &&& summary.functions == 0 ==> summary.highest_score == 0 && summary.p95_score == 0
    &&& summary.functions > 0 ==> exists|file: int, place: int|
        #![trigger listed_score(files, language, category, file, place, summary.highest_score)]
        listed_score(files, language, category, file, place, summary.highest_score)
    &&& forall|file: int, place: int, score: usize|
        #[trigger] listed_score(files, language, category, file, place, score) ==> score
            <= summary.highest_score
    &&& 0 < summary.functions && summary.functions * 19 + 19 <= usize::MAX ==> {
        &&& exists|file: int, place: int|
            #![trigger listed_score(files, language, category, file, place, summary.p95_score)]
            listed_score(files, language, category, file, place, summary.p95_score)
        &&& 100 * up_to(summary.p95_score) >= 95 * summary.functions
        &&& forall|lower: usize|
            lower < summary.p95_score ==> 100 * #[trigger] up_to(lower) < 95 * summary.functions
    }
}

proof fn lemma_summed_up(
    summary: CategorySummary,
    files: Seq<FileReport>,
    language: Option<Language>,
    category: Category,
)
    requires
        sums_up(summary, file_scores(files, language, category, files.len())),
    ensures
        summed_up(summary, files, language, category),
{
    let scores = file_scores(files, language, category, files.len());
    let below = |limit: usize|
        |score: usize|
            if score <= limit {
                1nat
            } else {
                0nat
            };
    let up_to = |limit: usize|
        worth_in_files(
            files,
            language,
            category,
            |score: usize|
                if score <= limit {
                    1
                } else {
                    0
                },
        );
    assert(files.take(files.len() as int) =~= files);
    lemma_file_scores(files, language, category, |score: usize| 1, files.len());
    lemma_file_scores(files, language, category, |score: usize| score as nat, files.len());
    lemma_count(scores);
    lemma_number_total(scores, scores.len());
    assert(scores.take(scores.len() as int) =~= scores);
    highest_is_the_greatest(scores, scores.len());
    assert forall|limit: usize| #[trigger] at_most(scores, limit) == up_to(limit) by {
        lemma_file_scores(
            files,
            language,
            category,
            |score: usize|
                if score <= limit {
                    1
                } else {
                    0
                },
            files.len(),
        );
    }
    if scores.len() > 0 {
        assert(scores.contains(summary.highest_score));
        lemma_scores_held(files, language, category, files.len(), summary.highest_score);
    }
    assert forall|file: int, place: int, score: usize| #[trigger]
        listed_score(files, language, category, file, place, score) implies score
        <= summary.highest_score by {
        lemma_scores_held(files, language, category, files.len(), score);
        let at = choose|at: int| 0 <= at < scores.len() && scores[at] == score;
        assert(scores[at] <= summary.highest_score);
    }
    if 0 < summary.functions && summary.functions * 19 + 19 <= usize::MAX {
        percentile_bounds_95_in_100(scores);
        lemma_scores_held(files, language, category, files.len(), summary.p95_score);
        assert(at_most(scores, summary.p95_score) == up_to(summary.p95_score));
        assert forall|lower: usize| lower < summary.p95_score implies 100 * #[trigger] up_to(lower)
            < 95 * summary.functions by {
            assert(at_most(scores, lower) == up_to(lower));
        }
    }
}

proof fn lemma_totals(files: Seq<FileReport>, language: Option<Language>, count: nat)
    requires
        count <= files.len(),
    ensures
        file_total(files, language, count) == sum_over_files(
            files.take(count as int),
            language,
            |file: FileReport| 1,
        ),
        line_total(files, language, count) == sum_over_files(
            files.take(count as int),
            language,
            |file: FileReport| file.lines.code as nat,
        ),
        token_total(files, language, count) == sum_over_files(
            files.take(count as int),
            language,
            |file: FileReport| file.tokens as nat,
        ),
    decreases count,
{
    let one = |file: FileReport| 1nat;
    let code = |file: FileReport| file.lines.code as nat;
    let tokens = |file: FileReport| file.tokens as nat;
    if count == 0 {
        lemma_no_files(language, one, files.take(0));
        lemma_no_files(language, code, files.take(0));
        lemma_no_files(language, tokens, files.take(0));
    } else {
        lemma_totals(files, language, (count - 1) as nat);
        lemma_one_more_file(files, language, one, count);
        lemma_one_more_file(files, language, code, count);
        lemma_one_more_file(files, language, tokens, count);
    }
}

proof fn lemma_no_files(
    language: Option<Language>,
    worth: spec_fn(FileReport) -> nat,
    files: Seq<FileReport>,
)
    requires
        files.len() == 0,
    ensures
        sum_over_files(files, language, worth) == 0,
{
}

proof fn lemma_one_more_file(
    files: Seq<FileReport>,
    language: Option<Language>,
    worth: spec_fn(FileReport) -> nat,
    count: nat,
)
    requires
        0 < count <= files.len(),
    ensures
        sum_over_files(files.take(count as int), language, worth) == sum_over_files(
            files.take(count - 1),
            language,
            worth,
        ) + if language is None || language == Some(files[count - 1].language) {
            worth(files[count - 1])
        } else {
            0
        },
{
    let read = |file: FileReport|
        if language is None || language == Some(file.language) {
            worth(file)
        } else {
            0
        };
    let fewer = files.take(count - 1).map_values(read);
    assert(files.take(count as int).map_values(read) =~= fewer.push(read(files[count - 1])));
    total_push(fewer, read(files[count - 1]));
}

/// Whether the files of a language, or all files, are summed up: how many there
/// are, their code lines and tokens, and their callables of either category.
pub open spec fn language_summed_up(
    summary: LanguageSummary,
    files: Seq<FileReport>,
    language: Option<Language>,
) -> bool {
    let all = summary.production.total_score + summary.test.total_score;
    &&& summary.files == sum_over_files(files, language, |file: FileReport| 1)
    &&& summary.code_lines == sum_over_files(
        files,
        language,
        |file: FileReport| file.lines.code as nat,
    )
    &&& summary.tokens == sum_over_files(
        files,
        language,
        |file: FileReport| file.tokens as nat,
    )
    &&& summed_up(summary.production, files, language, Category::Production)
    &&& summed_up(summary.test, files, language, Category::Test)
    &&& summary.burden.production == summary.production.total_score
    &&& summary.burden.test == summary.test.total_score
    &&& all <= usize::MAX ==> summary.burden.total == all
}

proof fn lemma_language_summed_up(
    summary: LanguageSummary,
    files: Seq<FileReport>,
    language: Option<Language>,
)
    requires
        summarizes_language(summary, files, language),
    ensures
        language_summed_up(summary, files, language),
{
    lemma_summed_up(summary.production, files, language, Category::Production);
    lemma_summed_up(summary.test, files, language, Category::Test);
    lemma_totals(files, language, files.len());
    assert(files.take(files.len() as int) =~= files);
}

/// A summary says of all files, and of those of each language, how many there are
/// and what they and their callables come to.
pub proof fn summaries_are_over_their_files(summary: Summary, files: Seq<FileReport>)
    requires
        summarizes(summary, files),
    ensures
        language_summed_up(
            (LanguageSummary {
                files: summary.files,
                code_lines: summary.code_lines,
                tokens: summary.tokens,
                production: summary.production,
                test: summary.test,
                burden: summary.burden,
            }),
            files,
            None,
        ),
        language_summed_up(summary.by_language.rust, files, Some(Language::Rust)),
        language_summed_up(summary.by_language.python, files, Some(Language::Python)),
        language_summed_up(summary.by_language.javascript, files, Some(Language::JavaScript)),
        language_summed_up(summary.by_language.typescript, files, Some(Language::TypeScript)),
        summary.languages.rust == summary.by_language.rust.files,
        summary.languages.python == summary.by_language.python.files,
        summary.languages.javascript == summary.by_language.javascript.files,
        summary.languages.typescript == summary.by_language.typescript.files,
{
    lemma_language_summed_up(
        LanguageSummary {
            files: summary.files,
            code_lines: summary.code_lines,
            tokens: summary.tokens,
            production: summary.production,
            test: summary.test,
            burden: summary.burden,
        },
        files,
        None,
    );
    lemma_language_summed_up(summary.by_language.rust, files, Some(Language::Rust));
    lemma_language_summed_up(summary.by_language.python, files, Some(Language::Python));
    lemma_language_summed_up(summary.by_language.javascript, files, Some(Language::JavaScript));
    lemma_language_summed_up(summary.by_language.typescript, files, Some(Language::TypeScript));
}

/// Whether a callable of a file is among those that a ranking is of.
pub open spec fn chosen(
    files: Seq<FileReport>,
    selection: Selection,
    file: int,
    place: int,
) -> bool {
    &&& 0 <= file < files.len()
    &&& 0 <= place < files[file].functions@.len()
    &&& match files[file].functions@[place].category {
        Category::Production => selection.production,
        Category::Test => selection.test,
    }
}

proof fn lemma_file_chosen(file: FileReport, selection: Selection, count: nat, view: RankedView)
    requires
        count <= file.functions@.len(),
    ensures
        file_functions(file, selection, count).contains(view) <==> exists|place: int|
            0 <= place < count && view == (RankedView {
                file,
                function: #[trigger] file.functions@[place],
            }) && selection.takes(file.functions@[place].category),
    decreases count,
{
    if count > 0 {
        lemma_file_chosen(file, selection, (count - 1) as nat, view);
        let earlier = file_functions(file, selection, (count - 1) as nat);
        let all = file_functions(file, selection, count);
        if earlier.contains(view) {
            let at = choose|at: int| 0 <= at < earlier.len() && earlier[at] == view;
            assert(all[at] == view);
        }
        let own = RankedView { file, function: file.functions@[count - 1] };
        if selection.takes(own.function.category) && own == view {
            assert(all[all.len() - 1] == view);
        }
        if all.contains(view) && !earlier.contains(view) {
            let at = choose|at: int| 0 <= at < all.len() && all[at] == view;
            if at < earlier.len() {
                assert(earlier[at] == view);
            }
            assert(own == view);
        }
    }
}

proof fn lemma_chosen(files: Seq<FileReport>, selection: Selection, count: nat, view: RankedView)
    requires
        count <= files.len(),
    ensures
        report_functions(files, selection, count).contains(view) <==> exists|file: int, place: int|
            0 <= file < count && #[trigger] chosen(files, selection, file, place) && view == (
            RankedView { file: files[file], function: files[file].functions@[place] }),
    decreases count,
{
    if count > 0 {
        lemma_chosen(files, selection, (count - 1) as nat, view);
        let earlier = report_functions(files, selection, (count - 1) as nat);
        let own = file_functions(
            files[count - 1],
            selection,
            files[count - 1].functions@.len(),
        );
        let all = report_functions(files, selection, count);
        lemma_file_chosen(
            files[count - 1],
            selection,
            files[count - 1].functions@.len(),
            view,
        );
        if earlier.contains(view) {
            let at = choose|at: int| 0 <= at < earlier.len() && earlier[at] == view;
            assert(all[at] == view);
        }
        if own.contains(view) {
            let at = choose|at: int| 0 <= at < own.len() && own[at] == view;
            assert(all[earlier.len() + at] == view);
            let place = choose|place: int|
                0 <= place < files[count - 1].functions@.len() && view == (RankedView {
                    file: files[count - 1],
                    function: #[trigger] files[count - 1].functions@[place],
                }) && selection.takes(files[count - 1].functions@[place].category);
            assert(chosen(files, selection, count - 1, place));
        }
        if all.contains(view) && !earlier.contains(view) {
            let at = choose|at: int| 0 <= at < all.len() && all[at] == view;
            if at < earlier.len() {
                assert(earlier[at] == view);
            } else {
                assert(own[at - earlier.len()] == view);
            }
        }
        if exists|file: int, place: int|
            0 <= file < count && #[trigger] chosen(files, selection, file, place) && view == (
            RankedView { file: files[file], function: files[file].functions@[place] }) {
            let (file, place) = choose|file: int, place: int|
                0 <= file < count && #[trigger] chosen(files, selection, file, place) && view == (
                RankedView { file: files[file], function: files[file].functions@[place] });
            if file == count - 1 {
                assert(selection.takes(files[count - 1].functions@[place].category));
                assert(own.contains(view));
            }
        }
    }
}

/// A ranking lists the callables of the categories that are asked for, all of them
/// and no others.
pub proof fn rankings_list_what_is_chosen(
    files: Seq<FileReport>,
    selection: Selection,
    sort: SortBy,
    view: RankedView,
)
    ensures
        ranked(files, selection, sort).contains(view) <==> exists|file: int, place: int| #[trigger]
            chosen(files, selection, file, place) && view == (RankedView {
                file: files[file],
                function: files[file].functions@[place],
            }),
{
    let listed = report_functions(files, selection, files.len());
    lemma_chosen(files, selection, files.len(), view);
    lemma_sorted_holds(listed, listed.len(), rank_precedes(sort), view);
    assert(listed.contains(view) <==> exists|place: int|
        0 <= place < listed.len() && listed[place] == view);
}

/// A ranking starts with the largest: by score, by how deep a callable goes, or by
/// its tokens. Of several that tie, those of the path that comes first come first,
/// and in one file those that start first.
pub proof fn rankings_start_with_the_largest(
    files: Seq<FileReport>,
    selection: Selection,
    sort: SortBy,
    left: int,
    right: int,
)
    requires
        0 <= left < right < ranked(files, selection, sort).len(),
    ensures
        ({
            let first = ranked(files, selection, sort)[left].function;
            let second = ranked(files, selection, sort)[right].function;
            let same_path = ranked(files, selection, sort)[left].file.path@ == ranked(
                files,
                selection,
                sort,
            )[right].file.path@;
            let (larger, smaller) = match sort {
                SortBy::Score => (first.score.value, second.score.value),
                SortBy::Depth => (first.metrics.max_depth, second.metrics.max_depth),
                SortBy::Size => (first.tokens, second.tokens),
            };
            &&& larger >= smaller
            &&& larger == smaller && same_path ==> first.location.start.line
                < second.location.start.line || (first.location.start.line
                == second.location.start.line && first.location.start.column
                <= second.location.start.column)
        }),
{
    let order = rank_precedes(sort);
    let listed = report_functions(files, selection, files.len());
    text_order_is_total();
    assert forall|first: RankedView, second: RankedView| #[trigger]
        order(first, second) || order(second, first) by {
        order_pair(text_order(), first.file.path@, second.file.path@);
        order_pair(text_order(), first.function.name@, second.function.name@);
    }
    assert forall|first: RankedView, middle: RankedView, second: RankedView| #[trigger]
        order(first, middle) && #[trigger] order(middle, second) implies order(first, second) by {
        order_triple(text_order(), first.file.path@, middle.file.path@, second.file.path@);
        order_pair(text_order(), first.file.path@, middle.file.path@);
        order_pair(text_order(), middle.file.path@, second.file.path@);
        order_triple(
            text_order(),
            first.function.name@,
            middle.function.name@,
            second.function.name@,
        );
        order_pair(text_order(), first.function.name@, middle.function.name@);
        order_pair(text_order(), middle.function.name@, second.function.name@);
    }
    sorted_is_ordered(listed, order);
    let all = ranked(files, selection, sort);
    assert(order(all[left], all[right]));
    order_pair(text_order(), all[left].file.path@, all[right].file.path@);
}

}
