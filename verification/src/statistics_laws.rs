//! What a comparison says of the scores of two reports.
use vstd::prelude::*;
use crate::delta_laws::{lemma_all_callables, lemma_compared};
use crate::deltas::MetricDelta;
use crate::diff::{category_scores, compares, refusal, CallableStats, CompareOptions, Comparison};
use crate::entries::{entries, file_entries, EntryView};
use crate::order::sorted;
use crate::report_input::{files_by_path, path_precedes, InputFile, InputFunction, InputReport};
use crate::stats::{
    at_most, highest_bounds_all, highest_is_the_greatest, highest_upto, percentile,
    percentile_bounds_95_in_100,
};
use crate::sums::{total, total_push};

verus! {

/// One for a callable of a category that scores no more than a limit.
pub open spec fn counted_once(category: Seq<char>, limit: usize) -> spec_fn(InputFunction) -> nat {
    |function: InputFunction|
        if function.category@ == category && function.score.value <= limit {
            1nat
        } else {
            0nat
        }
}

/// How many callables of a file are of a category and score no more than a limit.
pub open spec fn file_callables(file: InputFile, category: Seq<char>, limit: usize) -> nat {
    total(file.functions@.map_values(counted_once(category, limit)))
}

/// How many callables of a report are of a category and score no more than a limit.
pub open spec fn report_callables(report: InputReport, category: Seq<char>, limit: usize) -> nat {
    total(report.files@.map_values(|file: InputFile| file_callables(file, category, limit)))
}

/// Whether three numbers are how many callables of a category a report has, the lowest
/// score that 95 of 100 of them do not exceed, and the lowest that none exceeds.
pub open spec fn tells_scores(
    report: InputReport,
    category: Seq<char>,
    count: usize,
    percentile: usize,
    highest: usize,
) -> bool {
    let all = report_callables(report, category, usize::MAX);
    all * 19 + 19 <= usize::MAX ==> {
        &&& count == all
        &&& 100 * report_callables(report, category, percentile) >= 95 * all
        &&& forall|lower: usize|
            lower < percentile ==> 100 * #[trigger] report_callables(report, category, lower) < 95
                * all
        &&& report_callables(report, category, highest) == all
        &&& forall|lower: usize|
            lower < highest ==> #[trigger] report_callables(report, category, lower) < all
    }
}

/// Whether a difference is what there is now less what there was.
pub open spec fn differs_by(metric: MetricDelta) -> bool {
    metric.before <= i64::MAX && metric.after <= i64::MAX ==> metric.delta == metric.after
        - metric.before
}

proof fn lemma_category_scores(
    listed: Seq<EntryView>,
    category: Seq<char>,
    limit: usize,
    count: nat,
)
    requires
        count <= listed.len(),
    ensures
        at_most(category_scores(listed, category, count), limit) == total(
            listed.take(count as int).map_values(worth(category, limit)),
        ),
    decreases count,
{
    let mark = |score: usize|
        if score <= limit {
            1nat
        } else {
            0nat
        };
    let value = worth(category, limit);
    let scores = category_scores(listed, category, count);
    if count == 0 {
        assert(listed.take(0).map_values(value) =~= Seq::<nat>::empty());
        assert(scores.map_values(mark) =~= Seq::<nat>::empty());
    } else {
        lemma_category_scores(listed, category, limit, (count - 1) as nat);
        let earlier = category_scores(listed, category, (count - 1) as nat);
        let last = listed[count - 1];
        let fewer = listed.take(count - 1).map_values(value);
        assert(listed.take(count as int).map_values(value) =~= fewer.push(value(last)));
        total_push(fewer, value(last));
        if last.category == category {
            let score = last.function.score.value;
            assert(scores.map_values(mark) =~= earlier.map_values(mark).push(mark(score)));
            total_push(earlier.map_values(mark), mark(score));
        }
    }
}

spec fn worth(category: Seq<char>, limit: usize) -> spec_fn(EntryView) -> nat {
    |entry: EntryView|
        if entry.category == category && entry.function.score.value <= limit {
            1nat
        } else {
            0nat
        }
}

proof fn lemma_report_scores(report: InputReport, category: Seq<char>, limit: usize)
    requires
        files_by_path(report.files@) == sorted(
            report.files@,
            path_precedes(),
        ),
    ensures
        at_most(
            category_scores(entries(report.files@), category, entries(report.files@).len()),
            limit,
        ) == report_callables(report, category, limit),
{
    let listed = entries(report.files@);
    lemma_category_scores(listed, category, limit, listed.len());
    assert(listed.take(listed.len() as int) =~= listed);
    let value = worth(category, limit);
    let file_worth = |file: InputFile| file_callables(file, category, limit);
    assert forall|file: InputFile| #[trigger] file_worth(file) == total(
        file_entries(file).map_values(value),
    ) by {
        assert(file_entries(file).map_values(value) =~= file.functions@.map_values(
            counted_once(category, limit),
        ));
    }
    lemma_all_callables(report.files@, value, file_worth);
}

proof fn lemma_scores(report: InputReport, category: Seq<char>)
    requires
        files_by_path(report.files@) == sorted(
            report.files@,
            path_precedes(),
        ),
    ensures
        ({
            let scores = category_scores(
                entries(report.files@),
                category,
                entries(report.files@).len(),
            );
            tells_scores(
                report,
                category,
                scores.len() as usize,
                percentile(scores),
                highest_upto(scores, scores.len()),
            )
        }),
{
    let listed = entries(report.files@);
    let scores = category_scores(listed, category, listed.len());
    let all = report_callables(report, category, usize::MAX);
    let middle = percentile(scores);
    let highest = highest_upto(scores, scores.len());
    highest_bounds_all(scores);
    lemma_report_scores(report, category, usize::MAX);
    lemma_report_scores(report, category, highest);
    lemma_report_scores(report, category, middle);
    assert(at_most(scores, usize::MAX) == scores.len()) by {
        let mark = |limit: usize|
            |score: usize|
                if score <= limit {
                    1nat
                } else {
                    0nat
                };
        assert(scores.map_values(mark(usize::MAX)) =~= scores.map_values(mark(highest))) by {
            highest_is_the_greatest(scores, scores.len());
        }
    }
    if all * 19 + 19 <= usize::MAX {
        if scores.len() > 0 {
            percentile_bounds_95_in_100(scores);
        }
        assert forall|lower: usize| lower < middle implies 100
            * #[trigger] report_callables(report, category, lower) < 95 * all by {
            lemma_report_scores(report, category, lower);
            assert(at_most(scores, lower) == report_callables(report, category, lower));
        }
        assert forall|lower: usize| lower < highest implies #[trigger] report_callables(
            report,
            category,
            lower,
        ) < all by {
            lemma_report_scores(report, category, lower);
            assert(at_most(scores, lower) == report_callables(report, category, lower));
        }
    }
}

/// What a comparison says of the callables of a category is read off the two reports.
pub proof fn statistics_are_those_of_the_reports(
    comparison: Comparison,
    before_path: Seq<char>,
    after_path: Seq<char>,
    before: InputReport,
    after: InputReport,
    options: CompareOptions,
)
    requires
        refusal(before, after, options).len() == 0,
        compares(comparison, before_path, after_path, before, after),
    ensures
        stats_tell(comparison.callables.production, before, after, "production"@),
        stats_tell(comparison.callables.test, before, after, "test"@),
{
    lemma_compared(before, after, options);
    lemma_scores(before, "production"@);
    lemma_scores(after, "production"@);
    lemma_scores(before, "test"@);
    lemma_scores(after, "test"@);
}

/// Whether statistics are those of the callables of a category in two reports.
pub open spec fn stats_tell(
    stats: CallableStats,
    before: InputReport,
    after: InputReport,
    category: Seq<char>,
) -> bool {
    &&& tells_scores(
        before,
        category,
        stats.count.before,
        stats.p95_score.before,
        stats.highest_score.before,
    )
    &&& tells_scores(
        after,
        category,
        stats.count.after,
        stats.p95_score.after,
        stats.highest_score.after,
    )
    &&& differs_by(stats.count)
    &&& differs_by(stats.p95_score)
    &&& differs_by(stats.highest_score)
}

}
